//! Function definitions and the parameter lists of function types.

use vstd::prelude::*;

use crate::ast::{Name, Span, Storage};
use crate::semantic::model::cast::default_argument_promotions;
use crate::semantic::model::resolved_expression::{ExpressionKind, ResolvedExpression};
use crate::semantic::model::resolved_type::{
    compatible, list_compatible, list_promoted_compatible, params_compatible, promotion_compatible, spec_promoted,
    QualifiedType, ResolvedType,
};
use crate::semantic::sema::Sema;
use crate::semantic::model::symbol::{SymbolArena, SymbolId};

verus! {

/// The parameter part of a function type: either unspecified (`f()`) or a prototype.
#[derive(Clone, Debug)]
pub enum ParamTypes {
    Unspecified,
    Prototype { params: Vec<QualifiedType>, is_variadic: bool },
}

impl ParamTypes {
    /// The parameter lists are the same: same kind, same variadic flag, same types in order.
    pub open spec fn same(self, other: ParamTypes) -> bool {
        match (self, other) {
            (ParamTypes::Unspecified, ParamTypes::Unspecified) => true,
            (
                ParamTypes::Prototype { params: p1, is_variadic: v1 },
                ParamTypes::Prototype { params: p2, is_variadic: v2 },
            ) => v1 == v2 && p1@ == p2@,
            _ => false,
        }
    }

    /// Every parameter type refers to a type below `bound` in the type arena.
    pub open spec fn refs_below(self, bound: int) -> bool {
        match self {
            ParamTypes::Unspecified => true,
            ParamTypes::Prototype { params, .. } => forall|i: int|
                0 <= i < params@.len() ==> #[trigger] params@[i].id < bound,
        }
    }

    pub fn same_as(&self, other: &ParamTypes) -> (b: bool)
        ensures
            b == self.same(*other),
    {
        match (self, other) {
            (ParamTypes::Unspecified, ParamTypes::Unspecified) => true,
            (
                ParamTypes::Prototype { params: p1, is_variadic: v1 },
                ParamTypes::Prototype { params: p2, is_variadic: v2 },
            ) => {
                if *v1 != *v2 || p1.len() != p2.len() {
                    return false;
                }
                let mut i: usize = 0;
                let mut equal = true;
                while i < p1.len() && equal
                    invariant
                        p1@.len() == p2@.len(),
                        i <= p1@.len(),
                        equal ==> forall|j: int| 0 <= j < i ==> p1@[j] == p2@[j],
                        !equal ==> p1@ != p2@,
                    decreases p1@.len() - i + (if equal { 1int } else { 0 }),
                {
                    if p1[i] != p2[i] {
                        assert(p1@[i as int] != p2@[i as int]);
                        equal = false;
                    } else {
                        i += 1;
                    }
                }
                if equal {
                    assert(p1@ =~= p2@);
                }
                equal
            },
            _ => false,
        }
    }

    pub fn clone_params(&self) -> (r: ParamTypes)
        ensures
            r.same(*self),
    {
        match self {
            ParamTypes::Unspecified => ParamTypes::Unspecified,
            ParamTypes::Prototype { params, is_variadic } => {
                let mut out: Vec<QualifiedType> = Vec::new();
                let mut i: usize = 0;
                while i < params.len()
                    invariant
                        i <= params@.len(),
                        out@ == params@.subrange(0, i as int),
                    decreases params@.len() - i,
                {
                    out.push(params[i]);
                    i += 1;
                }
                assert(out@ =~= params@);
                ParamTypes::Prototype { params: out, is_variadic: *is_variadic }
            },
        }
    }
}


/// The type that results from the default argument promotions (6.3.2.2).
pub fn promoted(sema: &Sema, ty: QualifiedType) -> (r: QualifiedType)
    requires
        sema.wf(),
        ty.id < sema.ntypes(),
    ensures
        r == spec_promoted(sema, ty),
        r.id < sema.ntypes(),
{
    let mut re = ResolvedExpression::new(ty, ExpressionKind::RValue);
    default_argument_promotions(sema, &mut re);
    re.casted_ty()
}

/// `list_compatible` holds exactly when the lists have the same length and
/// each pair of entries is compatible.
/// Compatibility of parameter parts is symmetric: `p1` is compatible with
/// `p2` exactly when `p2` is compatible with `p1`.
pub proof fn lemma_params_compatible_symmetric(sema: &Sema, p1: ParamTypes, p2: ParamTypes)
    requires
        sema.wf(),
        p1.refs_below(sema.ntypes()),
        p2.refs_below(sema.ntypes()),
    ensures
        params_compatible(sema, p1, p2, sema.ntypes() as int) == params_compatible(sema, p2, p1, sema.ntypes() as int),
{
    if let (ParamTypes::Prototype { params: l1, .. }, ParamTypes::Prototype { params: l2, .. }) = (p1, p2) {
        let bound = sema.ntypes() as int;
        lemma_list_compatible(sema, l1@, l2@, bound);
        lemma_list_compatible(sema, l2@, l1@, bound);
        if l1@.len() == l2@.len() {
            assert forall|i: int| 0 <= i < l1@.len() implies compatible(sema, #[trigger] l1@[i], l2@[i]) == compatible(
                sema,
                l2@[i],
                l1@[i],
            ) by {
                crate::semantic::model::resolved_type::lemma_compatible_symmetric(sema, l1@[i], l2@[i]);
            }
        }
    }
}

pub proof fn lemma_list_compatible(sema: &Sema, a: Seq<QualifiedType>, b: Seq<QualifiedType>, bound: int)
    ensures
        list_compatible(sema, a, b, bound) == (a.len() == b.len() && forall|i: int|
            0 <= i < a.len() ==> (#[trigger] a[i]).id < bound && compatible(sema, a[i], b[i])),
    decreases a.len(),
{
    if a.len() > 0 && b.len() > 0 {
        let a1 = a.drop_last();
        let b1 = b.drop_last();
        lemma_list_compatible(sema, a1, b1, bound);
        if a.len() == b.len() {
            let n = a.len() - 1;
            assert(a[n] == a.last() && b[n] == b.last());
            if list_compatible(sema, a, b, bound) {
                assert forall|i: int| 0 <= i < a.len() implies (#[trigger] a[i]).id < bound && compatible(
                    sema,
                    a[i],
                    b[i],
                ) by {
                    if i < n {
                        assert(a1[i] == a[i] && b1[i] == b[i]);
                    }
                }
            } else if a.last().id < bound && compatible(sema, a.last(), b.last()) {
                let k = choose|k: int| 0 <= k < a1.len() && !((#[trigger] a1[k]).id < bound && compatible(sema, a1[k], b1[k]));
                assert(a1[k] == a[k] && b1[k] == b[k]);
            }
        }
    }
}

impl ParamTypes {
    /// Every parameter of a prototype is compatible with its default argument
    /// promotion.
    fn all_promoted_compatible(sema: &Sema, params: &Vec<QualifiedType>) -> (b: bool)
        requires
            sema.wf(),
            forall|i: int| 0 <= i < params@.len() ==> #[trigger] params@[i].id < sema.ntypes(),
        ensures
            b == list_promoted_compatible(sema, params@),
    {
        let mut i: usize = 0;
        while i < params.len()
            invariant
                sema.wf(),
                forall|j: int| 0 <= j < params@.len() ==> #[trigger] params@[j].id < sema.ntypes(),
                i <= params@.len(),
                forall|j: int| 0 <= j < i ==> promotion_compatible(sema, #[trigger] params@[j]),
            decreases params@.len() - i,
        {
            let p = params[i];
            let q = promoted(sema, p);
            let ok = p.same_qualifiers_as(&q) && (p.id == q.id || match (p.resolve(sema), q.resolve(sema)) {
                (ResolvedType::Tag(id), ResolvedType::Int) => sema.tags.get(*id).is_enum(),
                (ResolvedType::Int, ResolvedType::Tag(id)) => sema.tags.get(*id).is_enum(),
                _ => false,
            });
            if !ok {
                return false;
            }
            i += 1;
        }
        true
    }

    /// Compatibility of the parameter parts of two function types, the first
    /// of which refers only to types below `bound`.
    #[verifier::loop_isolation(false)]
    pub fn compatible_below(&self, sema: &Sema, other: &Self, Ghost(bound): Ghost<int>) -> (b: bool)
        requires
            sema.wf(),
            bound <= sema.ntypes(),
            self.refs_below(bound),
            other.refs_below(sema.ntypes()),
        ensures
            b == params_compatible(sema, *self, *other, bound),
        decreases bound, 1nat, 0nat,
    {
        match (self, other) {
            (
                ParamTypes::Prototype { params: p1, is_variadic: v1 },
                ParamTypes::Prototype { params: p2, is_variadic: v2 },
            ) => {
                proof {
                    lemma_list_compatible(sema, p1@, p2@, bound);
                }
                if *v1 != *v2 || p1.len() != p2.len() {
                    return false;
                }
                let mut i: usize = 0;
                while i < p1.len()
                    invariant
                        sema.wf(),
                        bound <= sema.ntypes(),
                        p1@.len() == p2@.len(),
                        forall|j: int| 0 <= j < p1@.len() ==> #[trigger] p1@[j].id < bound,
                        forall|j: int| 0 <= j < p2@.len() ==> #[trigger] p2@[j].id < sema.ntypes(),
                        i <= p1@.len(),
                        forall|j: int| 0 <= j < i ==> compatible(sema, #[trigger] p1@[j], p2@[j]),
                    decreases p1@.len() - i,
                {
                    if !p1[i].is_compatible(sema, &p2[i]) {
                        assert(!(p1@[i as int].id < bound && compatible(sema, p1@[i as int], p2@[i as int])));
                        return false;
                    }
                    i += 1;
                }
                true
            },
            (ParamTypes::Prototype { params, is_variadic }, ParamTypes::Unspecified) => {
                !*is_variadic && Self::all_promoted_compatible(sema, params)
            },
            (ParamTypes::Unspecified, ParamTypes::Prototype { params, is_variadic }) => {
                !*is_variadic && Self::all_promoted_compatible(sema, params)
            },
            (ParamTypes::Unspecified, ParamTypes::Unspecified) => true,
        }
    }
}

impl ParamTypes {
    /// 6.5.4.3 Compatibility of the parameter parts of two function types.
    pub fn is_compatible(&self, sema: &Sema, other: &Self) -> (b: bool)
        requires
            sema.wf(),
            self.refs_below(sema.ntypes()),
            other.refs_below(sema.ntypes()),
        ensures
            b == params_compatible(sema, *self, *other, sema.ntypes()),
    {
        self.compatible_below(sema, other, Ghost(sema.ntypes()))
    }

    /// 6.5.4.3 A prototype and the identifier list of a function definition
    /// agree: the same number of parameters, and each prototype parameter
    /// compatible with the promoted type of the corresponding identifier.
    #[verifier::loop_isolation(false)]
    pub fn is_compatible_with_identifiers(&self, sema: &Sema, identifiers: &[QualifiedType]) -> (b: bool)
        requires
            sema.wf(),
            self.refs_below(sema.ntypes()),
            forall|i: int| 0 <= i < identifiers@.len() ==> #[trigger] identifiers@[i].id < sema.ntypes(),
        ensures
            b == match *self {
                ParamTypes::Unspecified => true,
                ParamTypes::Prototype { params, .. } => params@.len() == identifiers@.len() && forall|i: int|
                    0 <= i < params@.len() ==> compatible(sema, #[trigger] params@[i], spec_promoted(sema, identifiers@[i])),
            },
    {
        match self {
            ParamTypes::Unspecified => true,
            ParamTypes::Prototype { params, .. } => {
                if params.len() != identifiers.len() {
                    return false;
                }
                let mut i: usize = 0;
                while i < params.len()
                    invariant
                        sema.wf(),
                        params@.len() == identifiers@.len(),
                        forall|j: int| 0 <= j < params@.len() ==> #[trigger] params@[j].id < sema.ntypes(),
                        forall|j: int| 0 <= j < identifiers@.len() ==> #[trigger] identifiers@[j].id < sema.ntypes(),
                        i <= params@.len(),
                        forall|j: int| 0 <= j < i ==> compatible(sema, #[trigger] params@[j], spec_promoted(sema, identifiers@[j])),
                    decreases params@.len() - i,
                {
                    let q = promoted(sema, identifiers[i]);
                    if !params[i].is_compatible(sema, &q) {
                        assert(!compatible(sema, params@[i as int], spec_promoted(sema, identifiers@[i as int])));
                        return false;
                    }
                    i += 1;
                }
                true
            },
        }
    }
}

/// Index of a function definition.
pub type FunctionDefId = usize;

#[derive(Clone, Debug)]
pub struct FunctionDef {
    pub sym: SymbolId,
    pub parameters: Vec<SymbolId>,
    pub is_complete: bool,
    pub labels: Vec<Name>,
}

/// The function definitions, indexed by `FunctionDefId`.
pub struct FunctionDefArena {
    pub data: Vec<FunctionDef>,
}

impl FunctionDefArena {
    pub fn new() -> (a: Self)
        ensures
            a.data@.len() == 0,
    {
        FunctionDefArena { data: Vec::new() }
    }

    /// A new definition of the function `sym`, without parameters yet.
    pub fn declare(&mut self, sym: SymbolId) -> (id: FunctionDefId)
        ensures
            id == old(self).data@.len(),
            final(self).data@.len() == old(self).data@.len() + 1,
            final(self).data@.drop_last() == old(self).data@,
            final(self).data@[id as int].sym == sym,
            final(self).data@[id as int].parameters@.len() == 0,
            final(self).data@[id as int].labels@.len() == 0,
            !final(self).data@[id as int].is_complete,
    {
        self.data.push(FunctionDef { sym, parameters: Vec::new(), is_complete: false, labels: Vec::new() });
        proof {
            assert(self.data@.drop_last() =~= old(self).data@);
        }
        self.data.len() - 1
    }

    pub fn get(&self, id: FunctionDefId) -> (f: &FunctionDef)
        requires
            id < self.data@.len(),
        ensures
            *f == self.data@[id as int],
    {
        &self.data[id]
    }

    /// The type of the function symbol of definition `id`.
    pub fn ty(&self, id: FunctionDefId, symbols: &SymbolArena) -> (t: Option<QualifiedType>)
        requires
            id < self.data@.len(),
            self.data@[id as int].sym < symbols.data@.len(),
        ensures
            t == symbols.data@[self.data@[id as int].sym as int].ty,
    {
        symbols.get(self.get(id).sym).ty
    }

    /// Gives definition `id` its parameters and marks it complete.
    pub fn complete(&mut self, id: FunctionDefId, parameters: Vec<SymbolId>)
        requires
            id < old(self).data@.len(),
        ensures
            final(self).data@.len() == old(self).data@.len(),
            forall|j: int| 0 <= j < old(self).data@.len() && j != id ==> final(self).data@[j] == old(self).data@[j],
            final(self).data@[id as int].sym == old(self).data@[id as int].sym,
            final(self).data@[id as int].labels == old(self).data@[id as int].labels,
            final(self).data@[id as int].parameters@ == parameters@,
            final(self).data@[id as int].is_complete,
    {
        let old_def = self.data.remove(id);
        let def = FunctionDef { sym: old_def.sym, parameters, is_complete: true, labels: old_def.labels };
        self.data.insert(id, def);
    }

    /// Records the label `name` as defined in definition `id`.
    pub fn add_label(&mut self, id: FunctionDefId, name: Name)
        requires
            id < old(self).data@.len(),
        ensures
            final(self).data@.len() == old(self).data@.len(),
            forall|j: int| 0 <= j < old(self).data@.len() && j != id ==> final(self).data@[j] == old(self).data@[j],
            final(self).data@[id as int].sym == old(self).data@[id as int].sym,
            final(self).data@[id as int].parameters == old(self).data@[id as int].parameters,
            final(self).data@[id as int].is_complete == old(self).data@[id as int].is_complete,
            final(self).data@[id as int].labels@ == old(self).data@[id as int].labels@.push(name),
    {
        let mut def = self.data.remove(id);
        def.labels.push(name);
        self.data.insert(id, def);
    }
}

#[derive(Clone, Copy, Debug)]
pub struct ParamInfo {
    pub name: Option<Name>,
    pub ty: QualifiedType,
    pub storage: Option<Storage>,
    pub span: Span,
}

/// The parameters a function declarator declares: none given, an identifier
/// list, or a parameter type list.
#[derive(Clone, Debug)]
pub enum DeclaredParams {
    Unspecified,
    Names(Vec<Name>),
    Prototype { params: Vec<ParamInfo>, is_variadic: bool },
}

impl DeclaredParams {
    /// The parameter part of the function type the declarator gives.
    pub fn types(&self) -> (t: ParamTypes)
        ensures
            match *self {
                DeclaredParams::Unspecified | DeclaredParams::Names(_) => t is Unspecified,
                DeclaredParams::Prototype { params, is_variadic } => match t {
                    ParamTypes::Prototype { params: ps, is_variadic: v } => v == is_variadic && ps@.len()
                        == params@.len() && forall|i: int| 0 <= i < params@.len() ==> ps@[i] == params@[i].ty,
                    _ => false,
                },
            },
    {
        match self {
            DeclaredParams::Unspecified | DeclaredParams::Names(_) => ParamTypes::Unspecified,
            DeclaredParams::Prototype { params, is_variadic } => {
                let mut out: Vec<QualifiedType> = Vec::new();
                let mut i: usize = 0;
                while i < params.len()
                    invariant
                        i <= params@.len(),
                        out@.len() == i,
                        forall|j: int| 0 <= j < i ==> out@[j] == params@[j].ty,
                    decreases params@.len() - i,
                {
                    out.push(params[i].ty);
                    i += 1;
                }
                ParamTypes::Prototype { params: out, is_variadic: *is_variadic }
            },
        }
    }
}

} // verus!
