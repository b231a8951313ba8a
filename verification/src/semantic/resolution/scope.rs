//! Scopes of identifiers (6.1.2.1): the name spaces of tags, labels and
//! ordinary identifiers, searched from the innermost scope outwards.

use vstd::prelude::*;
use std::collections::HashMap;

use crate::ast::StringId;
use crate::semantic::model::resolved_type::TagDefId;
use crate::semantic::model::symbol::{SymbolId, SymbolKind};

verus! {

broadcast use vstd::std_specs::hash::group_hash_axioms;

#[derive(Debug, Clone, Copy, PartialEq, Eq, Structural)]
pub enum ScopeKind {
    Block,
    Function,
    File,
    Prototype,
}

#[derive(Debug)]
pub struct Scope {
    pub tags: HashMap<StringId, TagDefId>,
    pub labels: HashMap<StringId, SymbolId>,
    pub ordinaries: HashMap<StringId, SymbolId>,
    pub kind: ScopeKind,
}

impl Scope {
    fn new(kind: ScopeKind) -> (s: Self)
        ensures
            s.tags@ == Map::<StringId, TagDefId>::empty(),
            s.labels@ == Map::<StringId, SymbolId>::empty(),
            s.ordinaries@ == Map::<StringId, SymbolId>::empty(),
            s.kind == kind,
    {
        Scope { tags: HashMap::new(), labels: HashMap::new(), ordinaries: HashMap::new(), kind }
    }
}

/// The kinds of symbols that live in the name space of ordinary identifiers.
pub open spec fn is_ordinary(kind: SymbolKind) -> bool {
    kind == SymbolKind::Typedef || kind == SymbolKind::Variable || kind == SymbolKind::Parameter || kind
        == SymbolKind::Function || kind == SymbolKind::Variant
}

/// The ordinary identifier `name` as seen from the innermost of `scopes`.
pub open spec fn lookup_in(scopes: Seq<Scope>, name: StringId) -> Option<SymbolId>
    decreases scopes.len(),
{
    if scopes.len() == 0 {
        None
    } else if scopes.last().ordinaries@.contains_key(name) {
        Some(scopes.last().ordinaries@[name])
    } else {
        lookup_in(scopes.drop_last(), name)
    }
}

/// The label `name` as seen from the innermost of `scopes`.
pub open spec fn lookup_label_in(scopes: Seq<Scope>, name: StringId) -> Option<SymbolId>
    decreases scopes.len(),
{
    if scopes.len() == 0 {
        None
    } else if scopes.last().labels@.contains_key(name) {
        Some(scopes.last().labels@[name])
    } else {
        lookup_label_in(scopes.drop_last(), name)
    }
}

/// The tag `name` as seen from the innermost of `scopes`.
pub open spec fn lookup_tag_in(scopes: Seq<Scope>, name: StringId) -> Option<TagDefId>
    decreases scopes.len(),
{
    if scopes.len() == 0 {
        None
    } else if scopes.last().tags@.contains_key(name) {
        Some(scopes.last().tags@[name])
    } else {
        lookup_tag_in(scopes.drop_last(), name)
    }
}

/// Position of the first function scope at or after `from`, or the length when there is none.
pub open spec fn function_index_from(scopes: Seq<Scope>, from: int) -> int
    decreases scopes.len() - from,
{
    if from < 0 || from >= scopes.len() {
        scopes.len() as int
    } else if scopes[from].kind == ScopeKind::Function {
        from
    } else {
        function_index_from(scopes, from + 1)
    }
}

/// Position of the outermost function scope.
pub open spec fn function_index(scopes: Seq<Scope>) -> int {
    function_index_from(scopes, 0)
}

pub open spec fn has_function_scope(scopes: Seq<Scope>) -> bool {
    function_index(scopes) < scopes.len()
}

/// Every identifier of the scope refers below the given arena lengths.
pub open spec fn scope_refs_below(s: Scope, nsyms: int, ntags: int) -> bool {
    &&& (forall|k: StringId| #[trigger] s.ordinaries@.contains_key(k) ==> s.ordinaries@[k] < nsyms)
    &&& (forall|k: StringId| #[trigger] s.labels@.contains_key(k) ==> s.labels@[k] < nsyms)
    &&& (forall|k: StringId| #[trigger] s.tags@.contains_key(k) ==> s.tags@[k] < ntags)
}


/// What a lookup finds is an entry of one of the scopes, so it is below
/// any bound all of them respect.
pub proof fn lemma_lookup_in_below(scopes: Seq<Scope>, name: StringId, nsyms: int, ntags: int)
    requires
        forall|i: int| 0 <= i < scopes.len() ==> scope_refs_below(#[trigger] scopes[i], nsyms, ntags),
    ensures
        lookup_in(scopes, name) matches Some(id) ==> id < nsyms,
    decreases scopes.len(),
{
    if scopes.len() > 0 {
        assert(scope_refs_below(scopes[scopes.len() - 1], nsyms, ntags));
        lemma_lookup_in_below(scopes.drop_last(), name, nsyms, ntags);
    }
}

/// What a tag lookup finds is below any bound all the scopes respect.
pub proof fn lemma_lookup_tag_in_below(scopes: Seq<Scope>, name: StringId, nsyms: int, ntags: int)
    requires
        forall|i: int| 0 <= i < scopes.len() ==> scope_refs_below(#[trigger] scopes[i], nsyms, ntags),
    ensures
        lookup_tag_in(scopes, name) matches Some(id) ==> id < ntags,
    decreases scopes.len(),
{
    if scopes.len() > 0 {
        assert(scope_refs_below(scopes[scopes.len() - 1], nsyms, ntags));
        lemma_lookup_tag_in_below(scopes.drop_last(), name, nsyms, ntags);
    }
}


/// An identifier declared in the innermost scope is what a lookup finds,
/// whatever outer scopes declare it as.
pub proof fn lemma_innermost_shadows(scopes: Seq<Scope>, name: StringId)
    requires
        scopes.len() > 0,
        scopes.last().ordinaries@.contains_key(name),
    ensures
        lookup_in(scopes, name) == Some(scopes.last().ordinaries@[name]),
{
}

/// A scope that does not declare an identifier changes nothing to what a
/// lookup of it finds: entering a new scope hides nothing, and leaving one
/// gives back the lookups from before it was entered.
pub proof fn lemma_scope_without_name(scopes: Seq<Scope>, inner: Scope, name: StringId)
    requires
        !inner.ordinaries@.contains_key(name),
    ensures
        lookup_in(scopes.push(inner), name) == lookup_in(scopes, name),
{
    assert(scopes.push(inner).drop_last() =~= scopes);
}

#[derive(Debug)]
pub struct Scopes(pub Vec<Scope>);

impl Scopes {
    pub open spec fn view(&self) -> Seq<Scope> {
        self.0@
    }

    /// Every identifier in every scope refers below the given arena lengths.
    pub open spec fn refs_below(&self, nsyms: int, ntags: int) -> bool {
        forall|i: int| 0 <= i < self.0@.len() ==> scope_refs_below(#[trigger] self.0@[i], nsyms, ntags)
    }

    pub fn new() -> (s: Self)
        ensures
            s@.len() == 0,
    {
        Scopes(Vec::new())
    }

    pub fn push(&mut self, kind: ScopeKind)
        ensures
            final(self)@.len() == old(self)@.len() + 1,
            final(self)@.drop_last() == old(self)@,
            final(self)@.last().kind == kind,
            final(self)@.last().ordinaries@ == Map::<StringId, SymbolId>::empty(),
            final(self)@.last().labels@ == Map::<StringId, SymbolId>::empty(),
            final(self)@.last().tags@ == Map::<StringId, TagDefId>::empty(),
    {
        self.0.push(Scope::new(kind));
        proof {
            assert(self@.drop_last() =~= old(self)@);
        }
    }

    pub fn pop(&mut self)
        ensures
            final(self)@ == (if old(self)@.len() > 0 { old(self)@.drop_last() } else { old(self)@ }),
    {
        self.0.pop();
    }

    pub fn is_empty(&self) -> (b: bool)
        ensures
            b == (self@.len() == 0),
    {
        self.0.len() == 0
    }

    pub fn kind(&self) -> (k: ScopeKind)
        requires
            self@.len() > 0,
        ensures
            k == self@.last().kind,
    {
        self.0[self.0.len() - 1].kind
    }

    pub fn set_kind(&mut self, kind: ScopeKind)
        requires
            old(self)@.len() > 0,
        ensures
            final(self)@.len() == old(self)@.len(),
            final(self)@.drop_last() == old(self)@.drop_last(),
            final(self)@.last().kind == kind,
            final(self)@.last().ordinaries@ == old(self)@.last().ordinaries@,
            final(self)@.last().labels@ == old(self)@.last().labels@,
            final(self)@.last().tags@ == old(self)@.last().tags@,
    {
        let n = self.0.len();
        let mut last = self.0.pop().unwrap();
        last.kind = kind;
        self.0.push(last);
        proof {
            assert(self@.drop_last() =~= old(self)@.drop_last());
        }
    }

    /// The ordinary identifier `name`, searched from the innermost scope outwards.
    pub fn lookup_ordinary(&self, name: StringId) -> (r: Option<SymbolId>)
        ensures
            r == lookup_in(self@, name),
    {
        let mut i = self.0.len();
        assert(self@.subrange(0, i as int) =~= self@);
        while i > 0
            invariant
                i <= self@.len(),
                lookup_in(self@, name) == lookup_in(self@.subrange(0, i as int), name),
            decreases i,
        {
            let s = &self.0[i - 1];
            proof {
                let sub = self@.subrange(0, i as int);
                assert(sub.drop_last() =~= self@.subrange(0, i - 1));
                assert(sub.last() == self@[i - 1]);
            }
            match s.ordinaries.get(&name) {
                Some(id) => {
                    return Some(*id);
                },
                None => {},
            }
            i -= 1;
        }
        None
    }

    /// The label `name`, searched from the innermost scope outwards.
    pub fn lookup_label(&self, name: StringId) -> (r: Option<SymbolId>)
        ensures
            r == lookup_label_in(self@, name),
    {
        let mut i = self.0.len();
        assert(self@.subrange(0, i as int) =~= self@);
        while i > 0
            invariant
                i <= self@.len(),
                lookup_label_in(self@, name) == lookup_label_in(self@.subrange(0, i as int), name),
            decreases i,
        {
            let s = &self.0[i - 1];
            proof {
                let sub = self@.subrange(0, i as int);
                assert(sub.drop_last() =~= self@.subrange(0, i - 1));
                assert(sub.last() == self@[i - 1]);
            }
            match s.labels.get(&name) {
                Some(id) => {
                    return Some(*id);
                },
                None => {},
            }
            i -= 1;
        }
        None
    }

    /// The tag `name`: in the innermost scope only when `current_only`,
    /// otherwise searched outwards.
    pub fn lookup_tag(&self, name: StringId, current_only: bool) -> (r: Option<TagDefId>)
        requires
            current_only ==> self@.len() > 0,
        ensures
            r == (if current_only {
                if self@.last().tags@.contains_key(name) {
                    Some(self@.last().tags@[name])
                } else {
                    None::<TagDefId>
                }
            } else {
                lookup_tag_in(self@, name)
            }),
    {
        if current_only {
            let last = &self.0[self.0.len() - 1];
            assert(*last == self@.last());
            return match last.tags.get(&name) {
                Some(id) => Some(*id),
                None => None,
            };
        }
        let mut i = self.0.len();
        assert(self@.subrange(0, i as int) =~= self@);
        while i > 0
            invariant
                !current_only,
                i <= self@.len(),
                lookup_tag_in(self@, name) == lookup_tag_in(self@.subrange(0, i as int), name),
            decreases i,
        {
            let s = &self.0[i - 1];
            proof {
                let sub = self@.subrange(0, i as int);
                assert(sub.drop_last() =~= self@.subrange(0, i - 1));
                assert(sub.last() == self@[i - 1]);
            }
            match s.tags.get(&name) {
                Some(id) => {
                    return Some(*id);
                },
                None => {},
            }
            i -= 1;
        }
        None
    }

    /// Position of the outermost function scope.
    fn function(&self) -> (i: usize)
        requires
            has_function_scope(self@),
        ensures
            i == function_index(self@),
            i < self@.len(),
            self@[i as int].kind == ScopeKind::Function,
    {
        let mut i: usize = 0;
        while i < self.0.len()
            invariant
                i <= self@.len(),
                function_index_from(self@, i as int) == function_index(self@),
                function_index(self@) < self@.len(),
            decreases self@.len() - i,
        {
            if matches!(self.0[i].kind, ScopeKind::Function) {
                return i;
            }
            i += 1;
        }
        0
    }

    /// The symbol `name` declares in the scope a declaration of `kind` goes
    /// to: labels in the function scope, ordinary identifiers in the innermost scope.
    pub fn current(&self, kind: SymbolKind, name: StringId) -> (r: Option<SymbolId>)
        requires
            self@.len() > 0,
            kind == SymbolKind::Label || is_ordinary(kind),
            kind == SymbolKind::Label ==> has_function_scope(self@),
        ensures
            r == (if kind == SymbolKind::Label {
                let f = self@[function_index(self@)];
                if f.labels@.contains_key(name) { Some(f.labels@[name]) } else { None::<SymbolId> }
            } else {
                let s = self@.last();
                if s.ordinaries@.contains_key(name) { Some(s.ordinaries@[name]) } else { None::<SymbolId> }
            }),
    {
        if matches!(kind, SymbolKind::Label) {
            let f = self.function();
            match self.0[f].labels.get(&name) {
                Some(id) => Some(*id),
                None => None,
            }
        } else {
            match self.0[self.0.len() - 1].ordinaries.get(&name) {
                Some(id) => Some(*id),
                None => None,
            }
        }
    }

    /// Binds `name` to `id` in the scope a declaration of `kind` goes to.
    pub fn insert(&mut self, kind: SymbolKind, name: StringId, id: SymbolId)
        requires
            old(self)@.len() > 0,
            kind == SymbolKind::Label || is_ordinary(kind),
            kind == SymbolKind::Label ==> has_function_scope(old(self)@),
        ensures
            final(self)@.len() == old(self)@.len(),
            kind != SymbolKind::Label ==> {
                &&& final(self)@.drop_last() == old(self)@.drop_last()
                &&& final(self)@.last().ordinaries@ == old(self)@.last().ordinaries@.insert(name, id)
                &&& final(self)@.last().labels@ == old(self)@.last().labels@
                &&& final(self)@.last().tags@ == old(self)@.last().tags@
                &&& final(self)@.last().kind == old(self)@.last().kind
            },
            kind == SymbolKind::Label ==> {
                let f = function_index(old(self)@);
                &&& forall|j: int| 0 <= j < old(self)@.len() && j != f ==> final(self)@[j] == old(self)@[j]
                &&& final(self)@[f].labels@ == old(self)@[f].labels@.insert(name, id)
                &&& final(self)@[f].ordinaries@ == old(self)@[f].ordinaries@
                &&& final(self)@[f].tags@ == old(self)@[f].tags@
                &&& final(self)@[f].kind == old(self)@[f].kind
            },
    {
        if matches!(kind, SymbolKind::Label) {
            let f = self.function();
            let mut scope = self.0.remove(f);
            scope.labels.insert(name, id);
            self.0.insert(f, scope);
            proof {
                assert forall|j: int| 0 <= j < old(self)@.len() && j != f implies self@[j] == old(self)@[j] by {
                    if j < f {
                    } else {
                    }
                }
            }
        } else {
            let mut last = self.0.pop().unwrap();
            last.ordinaries.insert(name, id);
            self.0.push(last);
            proof {
                assert(self@.drop_last() =~= old(self)@.drop_last());
            }
        }
    }

    /// Binds the tag `name` to `id` in the innermost scope.
    pub fn insert_tag(&mut self, name: StringId, id: TagDefId)
        requires
            old(self)@.len() > 0,
        ensures
            final(self)@.len() == old(self)@.len(),
            final(self)@.drop_last() == old(self)@.drop_last(),
            final(self)@.last().tags@ == old(self)@.last().tags@.insert(name, id),
            final(self)@.last().ordinaries@ == old(self)@.last().ordinaries@,
            final(self)@.last().labels@ == old(self)@.last().labels@,
            final(self)@.last().kind == old(self)@.last().kind,
    {
        let mut last = self.0.pop().unwrap();
        last.tags.insert(name, id);
        self.0.push(last);
        proof {
            assert(self@.drop_last() =~= old(self)@.drop_last());
        }
    }
}

} // verus!
