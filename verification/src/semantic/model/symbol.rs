//! Symbols: what an identifier declares, with its linkage (6.1.2.2), storage
//! duration (6.1.2.4) and kind of definition (6.7.2).

use vstd::prelude::*;

use crate::ast::{Name, Storage};
use crate::semantic::model::resolved_expression::ExpressionKind;
use crate::semantic::model::resolved_type::{compatible, QualifiedType};
use crate::semantic::sema::Sema;
use crate::semantic::resolution::scope::ScopeKind;

verus! {

/// Index of a symbol in the symbol arena.
pub type SymbolId = usize;

/// Index of an initializer in the initializer arena.
pub type InitilizerId = usize;

#[derive(Clone, Copy, Debug, PartialEq, Eq, Structural)]
pub enum Linkage {
    NoLinkage,
    External,
    Internal,
}

#[derive(Clone, Copy, Debug, PartialEq, Eq, Structural)]
pub enum Duration {
    NoDuration,
    Static,
    Automatic,
}

#[derive(Clone, Copy, Debug, PartialEq, Eq, Structural)]
pub enum Definition {
    Tentative,
    Definition,
    Declaration,
}

#[derive(Clone, Copy, Debug, PartialEq, Eq, Structural)]
pub enum SymbolKind {
    Variable,
    Function,
    Parameter,
    Struct,
    Enum,
    Union,
    Member,
    Label,
    Typedef,
    Variant,
}

#[derive(Clone, Copy, Debug)]
pub struct Symbol {
    pub name: Name,
    pub ty: Option<QualifiedType>,
    pub storage: Option<Storage>,
    pub kind: SymbolKind,
    pub value: Option<i32>,
    pub linkage: Linkage,
    pub duration: Duration,
    pub definition: Definition,
    pub is_init: bool,
    pub used: bool,
    pub initializer: Option<InitilizerId>,
}

/// 6.1.2.2 The linkage of an identifier declared in `scope` with `storage`,
/// given the linkage of a prior declaration visible at file scope.
pub open spec fn spec_linkage_of(
    scope: ScopeKind,
    storage: Option<Storage>,
    kind: SymbolKind,
    prior: Option<Linkage>,
) -> Linkage {
    if kind != SymbolKind::Variable && kind != SymbolKind::Function {
        Linkage::NoLinkage
    } else if storage == Some(Storage::Extern) {
        match prior {
            Some(l) => l,
            None => Linkage::External,
        }
    } else if kind == SymbolKind::Function {
        if storage == Some(Storage::Static) {
            Linkage::Internal
        } else {
            match prior {
                Some(l) => l,
                None => Linkage::External,
            }
        }
    } else if scope == ScopeKind::Block || scope == ScopeKind::Function {
        Linkage::NoLinkage
    } else if storage == Some(Storage::Static) {
        Linkage::Internal
    } else {
        Linkage::External
    }
}

/// 6.1.2.4 Objects declared at file scope or with `static` or `extern` have
/// static storage duration; other objects and parameters are automatic.
pub open spec fn spec_duration_of(scope: ScopeKind, storage: Option<Storage>, kind: SymbolKind) -> Duration {
    if kind != SymbolKind::Variable && kind != SymbolKind::Parameter {
        Duration::NoDuration
    } else if scope == ScopeKind::File || storage == Some(Storage::Static) || storage == Some(Storage::Extern) {
        Duration::Static
    } else {
        Duration::Automatic
    }
}

/// 6.7.2 A file-scope object declaration without initializer and with no
/// storage class or `static` is a tentative definition; with an initializer it
/// is a definition; functions are declarations until their body is seen.
pub open spec fn spec_definition_of(
    scope: ScopeKind,
    storage: Option<Storage>,
    has_initializer: bool,
    kind: SymbolKind,
) -> Definition {
    if kind == SymbolKind::Function {
        Definition::Declaration
    } else if has_initializer {
        Definition::Definition
    } else if scope == ScopeKind::File {
        if storage == None::<Storage> || storage == Some(Storage::Static) {
            Definition::Tentative
        } else {
            Definition::Declaration
        }
    } else if storage == Some(Storage::Extern) {
        Definition::Declaration
    } else {
        Definition::Definition
    }
}

pub open spec fn spec_expression_kind(kind: SymbolKind) -> ExpressionKind {
    match kind {
        SymbolKind::Function | SymbolKind::Variant => ExpressionKind::RValue,
        _ => ExpressionKind::LValue,
    }
}

impl Symbol {
    pub fn new(
        name: Name,
        ty: Option<QualifiedType>,
        storage: Option<Storage>,
        kind: SymbolKind,
        is_init: bool,
    ) -> (s: Self)
        ensures
            s.name == name,
            s.ty == ty,
            s.storage == storage,
            s.kind == kind,
            s.is_init == is_init,
            s.value is None,
            s.linkage == Linkage::NoLinkage,
            s.definition == Definition::Definition,
            s.duration == Duration::NoDuration,
            !s.used,
            s.initializer is None,
    {
        Symbol {
            name,
            ty,
            storage,
            kind,
            value: None,
            is_init,
            linkage: Linkage::NoLinkage,
            definition: Definition::Definition,
            duration: Duration::NoDuration,
            used: false,
            initializer: None,
        }
    }

    pub fn linkage_of(scope: ScopeKind, storage: Option<Storage>, kind: SymbolKind, prior: Option<Linkage>) -> (l:
        Linkage)
        ensures
            l == spec_linkage_of(scope, storage, kind, prior),
    {
        let is_var = matches!(kind, SymbolKind::Variable);
        let is_fun = matches!(kind, SymbolKind::Function);
        if !is_var && !is_fun {
            return Linkage::NoLinkage;
        }
        let is_extern = matches!(storage, Some(Storage::Extern));
        let is_static = matches!(storage, Some(Storage::Static));
        if is_extern {
            return match prior {
                Some(l) => l,
                None => Linkage::External,
            };
        }
        if is_fun {
            return if is_static {
                Linkage::Internal
            } else {
                match prior {
                    Some(l) => l,
                    None => Linkage::External,
                }
            };
        }
        if matches!(scope, ScopeKind::Block | ScopeKind::Function) {
            return Linkage::NoLinkage;
        }
        if is_static {
            return Linkage::Internal;
        }
        Linkage::External
    }

    pub fn duration_of(scope: ScopeKind, storage: Option<Storage>, kind: SymbolKind) -> (d: Duration)
        ensures
            d == spec_duration_of(scope, storage, kind),
    {
        if !matches!(kind, SymbolKind::Variable | SymbolKind::Parameter) {
            return Duration::NoDuration;
        }
        if matches!(scope, ScopeKind::File) || matches!(storage, Some(Storage::Static))
            || matches!(storage, Some(Storage::Extern)) {
            Duration::Static
        } else {
            Duration::Automatic
        }
    }

    pub fn definition_of(scope: ScopeKind, storage: Option<Storage>, has_initializer: bool, kind: SymbolKind) -> (d:
        Definition)
        ensures
            d == spec_definition_of(scope, storage, has_initializer, kind),
    {
        if matches!(kind, SymbolKind::Function) {
            return Definition::Declaration;
        }
        if has_initializer {
            return Definition::Definition;
        }
        if matches!(scope, ScopeKind::File) {
            return match storage {
                None | Some(Storage::Static) => Definition::Tentative,
                _ => Definition::Declaration,
            };
        }
        match storage {
            Some(Storage::Extern) => Definition::Declaration,
            _ => Definition::Definition,
        }
    }

    fn with_value(name: Name, ty: QualifiedType, value: Option<i32>, kind: SymbolKind) -> (s: Self)
        ensures
            s == (Symbol { value, ..Symbol::spec_new(name, Some(ty), None, kind, true) }),
    {
        let base = Self::new(name, Some(ty), None, kind, true);
        Symbol { value, ..base }
    }

    pub open spec fn spec_new(
        name: Name,
        ty: Option<QualifiedType>,
        storage: Option<Storage>,
        kind: SymbolKind,
        is_init: bool,
    ) -> Symbol {
        Symbol {
            name,
            ty,
            storage,
            kind,
            value: None,
            is_init,
            linkage: Linkage::NoLinkage,
            definition: Definition::Definition,
            duration: Duration::NoDuration,
            used: false,
            initializer: None,
        }
    }

    /// A struct or union member; `value` is its bit-field width, if it is one.
    pub fn member(name: Name, ty: QualifiedType, value: Option<i32>) -> (s: Self)
        ensures
            s == (Symbol { value, ..Symbol::spec_new(name, Some(ty), None, SymbolKind::Member, true) }),
    {
        Self::with_value(name, ty, value, SymbolKind::Member)
    }

    /// An enumeration constant with its value.
    pub fn variant(name: Name, ty: QualifiedType, value: i32) -> (s: Self)
        ensures
            s == (Symbol { value: Some(value), ..Symbol::spec_new(name, Some(ty), None, SymbolKind::Variant, true) }),
    {
        Self::with_value(name, ty, Some(value), SymbolKind::Variant)
    }

    pub fn function(name: Name, ty: QualifiedType, storage: Storage) -> (s: Self)
        ensures
            s == Symbol::spec_new(name, Some(ty), Some(storage), SymbolKind::Function, true),
    {
        Self::new(name, Some(ty), Some(storage), SymbolKind::Function, true)
    }

    /// A parameter: automatic storage duration, not initialized by its declaration.
    pub fn parameter(name: Name, ty: QualifiedType, storage: Storage) -> (s: Self)
        ensures
            s == (Symbol {
                duration: Duration::Automatic,
                ..Symbol::spec_new(name, Some(ty), Some(storage), SymbolKind::Parameter, false)
            }),
    {
        let base = Self::new(name, Some(ty), Some(storage), SymbolKind::Parameter, false);
        Symbol { duration: Duration::Automatic, ..base }
    }

    pub fn label(name: Name, is_init: bool) -> (s: Self)
        ensures
            s == Symbol::spec_new(name, None, None, SymbolKind::Label, is_init),
    {
        Self::new(name, None, None, SymbolKind::Label, is_init)
    }

    pub fn expression_kind(&self) -> (k: ExpressionKind)
        ensures
            k == spec_expression_kind(self.kind),
    {
        match self.kind {
            SymbolKind::Function | SymbolKind::Variant => ExpressionKind::RValue,
            _ => ExpressionKind::LValue,
        }
    }
}

/// The symbols, indexed by `SymbolId`.
pub struct SymbolArena {
    pub data: Vec<Symbol>,
}

impl SymbolArena {
    pub open spec fn len(&self) -> nat {
        self.data@.len()
    }

    pub open spec fn spec_get(&self, id: SymbolId) -> Symbol {
        self.data@[id as int]
    }

    pub fn new() -> (a: Self)
        ensures
            a.data@.len() == 0,
    {
        SymbolArena { data: Vec::new() }
    }

    pub fn allocate(&mut self, sym: Symbol) -> (id: SymbolId)
        ensures
            id == old(self).data@.len(),
            final(self).data@ == old(self).data@.push(sym),
    {
        self.data.push(sym);
        self.data.len() - 1
    }

    pub fn get(&self, id: SymbolId) -> (s: &Symbol)
        requires
            id < self.data@.len(),
        ensures
            *s == self.data@[id as int],
    {
        &self.data[id]
    }

    pub fn add(
        &mut self,
        name: Name,
        ty: Option<QualifiedType>,
        storage: Option<Storage>,
        kind: SymbolKind,
        is_init: bool,
    ) -> (id: SymbolId)
        ensures
            id == old(self).data@.len(),
            final(self).data@ == old(self).data@.push(Symbol::spec_new(name, ty, storage, kind, is_init)),
    {
        self.allocate(Symbol::new(name, ty, storage, kind, is_init))
    }

    pub fn is_empty(&self) -> (b: bool)
        ensures
            b == (self.data@.len() == 0),
    {
        self.data.len() == 0
    }

    /// Replaces symbol `id`.
    pub fn set(&mut self, id: SymbolId, sym: Symbol)
        requires
            id < old(self).data@.len(),
        ensures
            final(self).data@ == old(self).data@.update(id as int, sym),
    {
        self.data.set(id, sym);
    }
}

/// Two declarations of the same identifier and kind, with the same type or
/// compatible types (6.1.2.6).
pub open spec fn spec_symbols_compatible(sema: &Sema, a: Symbol, b: Symbol) -> bool {
    &&& a.name.id == b.name.id
    &&& a.kind == b.kind
    &&& (a.ty == b.ty || (a.ty is Some && b.ty is Some && compatible(sema, a.ty->0, b.ty->0)))
}

impl Symbol {
    pub fn is_compatible(&self, sema: &Sema, other: &Self) -> (b: bool)
        requires
            sema.wf(),
            sema.symbol_ok(*self),
            sema.symbol_ok(*other),
        ensures
            b == spec_symbols_compatible(sema, *self, *other),
    {
        if self.name.id != other.name.id || self.kind != other.kind {
            return false;
        }
        match (self.ty, other.ty) {
            (Some(a), Some(b)) => a == b || a.is_compatible(sema, &b),
            (None, None) => true,
            _ => false,
        }
    }
}

} // verus!
