//! Constraints on external definitions and function definitions (6.7).

use vstd::prelude::*;

use crate::ast::{DeclarationNode, DeclarationSpecifier, InitDeclaratorNode, Name, Storage, StringId};
use crate::semantic::diagnosis::{Diag, Diagnosis};
use crate::semantic::model::function_def::{DeclaredParams, ParamInfo};

verus! {

/// 6.7 The storage-class specifiers `auto` and `register` shall not appear in
/// the declaration specifiers of an external declaration.
pub fn check_external_specifiers(specifiers: &[DeclarationSpecifier]) -> (d: Diag<()>)
    ensures
        d.diagnosis == if exists|i: int|
            0 <= i < specifiers@.len() && (#[trigger] specifiers@[i] == DeclarationSpecifier::Storage(Storage::Auto)
                || specifiers@[i] == DeclarationSpecifier::Storage(Storage::Register)) {
            Some(Diagnosis::AutoRegisterExternal)
        } else {
            None
        },
{
    let mut i: usize = 0;
    while i < specifiers.len()
        invariant
            i <= specifiers@.len(),
            forall|j: int|
                0 <= j < i ==> !(#[trigger] specifiers@[j] == DeclarationSpecifier::Storage(Storage::Auto)
                    || specifiers@[j] == DeclarationSpecifier::Storage(Storage::Register)),
        decreases specifiers@.len() - i,
    {
        if matches!(specifiers[i], DeclarationSpecifier::Storage(Storage::Auto | Storage::Register)) {
            return Diag::err((), Diagnosis::AutoRegisterExternal);
        }
        i = i + 1;
    }
    Diag::ok(())
}

/// 6.7 Identifiers with internal linkage are checked once the unit is
/// complete; nothing is reported here.
pub fn check_unique_internal_linkage() -> (d: Diag<()>)
    ensures
        d.diagnosis is None,
{
    Diag::ok(())
}

/// 6.7 External definitions are checked once the unit is complete; nothing is
/// reported here.
pub fn check_one_external() -> (d: Diag<()>)
    ensures
        d.diagnosis is None,
{
    Diag::ok(())
}

/// 6.7.1 The storage class of a function definition, if any, is `extern` or `static`.
pub fn check_function_storage(storage: Storage) -> (d: Diag<()>)
    ensures
        d.diagnosis == if storage == Storage::Static || storage == Storage::Extern {
            None
        } else {
            Some(Diagnosis::FunctionAutoExtern)
        },
{
    match storage {
        Storage::Static | Storage::Extern => Diag::ok(()),
        _ => Diag::err((), Diagnosis::FunctionAutoExtern),
    }
}

/// 6.7.1 The declarator of a function definition shall declare a function.
pub fn extract_function_declarator(params: Option<DeclaredParams>) -> (d: Diag<Option<DeclaredParams>>)
    ensures
        d.res == params,
        d.diagnosis == if params is None { Some(Diagnosis::NotFunctionTypeDeclarator) } else { None },
{
    match params {
        None => Diag::err(None, Diagnosis::NotFunctionTypeDeclarator),
        Some(params) => Diag::ok(Some(params)),
    }
}

/// 6.7.1 A prototype definition names every parameter and is not followed by
/// a declaration list. The result tells whether the parameters are named
/// (and, with no declaration list, whether there are any).
pub fn is_valid_parameter_style(params: &[ParamInfo], old_style_declarations: &[DeclarationNode]) -> (d: Diag<bool>)
    ensures
        ({
            let is_named = forall|i: int| 0 <= i < params@.len() ==> (#[trigger] params@[i]).name is Some;
            if old_style_declarations@.len() > 0 {
                d == (Diag { res: is_named, diagnosis: Some(Diagnosis::ParameterTypeListWithList) })
            } else if params@.len() == 0 {
                d == (Diag { res: false, diagnosis: None })
            } else if is_named {
                d == (Diag { res: true, diagnosis: None })
            } else {
                d == (Diag { res: false, diagnosis: Some(Diagnosis::UnnamedPrototypeParameter) })
            }
        }),
{
    let mut is_named = true;
    let mut i: usize = 0;
    while i < params.len()
        invariant
            i <= params@.len(),
            is_named == forall|j: int| 0 <= j < i ==> (#[trigger] params@[j]).name is Some,
        decreases params@.len() - i,
    {
        if params[i].name.is_none() {
            is_named = false;
        }
        i = i + 1;
    }
    if old_style_declarations.len() > 0 {
        return Diag::err(is_named, Diagnosis::ParameterTypeListWithList);
    }
    if params.len() == 0 {
        return Diag::ok(false);
    }
    if is_named {
        Diag::ok(true)
    } else {
        Diag::err(false, Diagnosis::UnnamedPrototypeParameter)
    }
}

/// 6.7.1 A parameter shall not have type `void`.
pub fn check_void_parameter(is_void: bool) -> (d: Diag<()>)
    ensures
        d.diagnosis == if is_void { Some(Diagnosis::VoidParameter) } else { None },
{
    if is_void {
        Diag::err((), Diagnosis::VoidParameter)
    } else {
        Diag::ok(())
    }
}

/// The identifiers the declarations of an old-style definition declare.
pub open spec fn declared_names(declarations: Seq<Option<StringId>>) -> Set<StringId> {
    Set::new(|x: StringId| declarations.contains(Some(x)))
}

/// 6.7.1 The identifiers of an old-style definition are distinct, and every
/// declaration declares one of them. The result lists, each once, the
/// identifiers no declaration declares.
pub open spec fn old_style_ok(names: Seq<StringId>, declarations: Seq<Option<StringId>>, r: Diag<Option<Vec<StringId>>>) -> bool {
    if !names.no_duplicates() {
        r.res is None && r.diagnosis == Some(Diagnosis::DuplicateParameterName)
    } else if exists|x: StringId| #[trigger] declared_names(declarations).contains(x) && !names.contains(x) {
        r.res is None && r.diagnosis == Some(Diagnosis::MissingParameterInOldStyle)
    } else {
        &&& r.diagnosis is None
        &&& r.res is Some
        &&& r.res->0@.no_duplicates()
        &&& r.res->0@.to_set() == names.to_set().difference(declared_names(declarations))
    }
}

fn contains_name(s: &[StringId], x: StringId, n: usize) -> (b: bool)
    requires
        n <= s@.len(),
    ensures
        b == s@.subrange(0, n as int).contains(x),
{
    let mut i: usize = 0;
    while i < n
        invariant
            i <= n <= s@.len(),
            forall|j: int| 0 <= j < i ==> s@[j] != x,
        decreases s@.len() - i,
    {
        if s[i] == x {
            assert(s@.subrange(0, n as int)[i as int] == x);
            return true;
        }
        i = i + 1;
    }
    false
}

fn declares(declarations: &Vec<Option<StringId>>, x: StringId) -> (b: bool)
    ensures
        b == declarations@.contains(Some(x)),
{
    let mut i: usize = 0;
    while i < declarations.len()
        invariant
            i <= declarations@.len(),
            forall|j: int| 0 <= j < i ==> declarations@[j] != Some(x),
        decreases declarations@.len() - i,
    {
        if declarations[i] == Some(x) {
            return true;
        }
        i = i + 1;
    }
    false
}

#[verifier::loop_isolation(false)]
pub fn is_valid_old_style(names: &[StringId], declarations: Vec<Option<StringId>>) -> (d: Diag<Option<Vec<StringId>>>)
    ensures
        old_style_ok(names@, declarations@, d),
{
    let mut i: usize = 0;
    while i < names.len()
        invariant
            i <= names@.len(),
            names@.subrange(0, i as int).no_duplicates(),
        decreases names@.len() - i,
    {
        if contains_name(names, names[i], i) {
            proof {
                let k = choose|k: int| 0 <= k < i && names@.subrange(0, i as int)[k] == names@[i as int];
                assert(names@[k] == names@[i as int]);
            }
            return Diag::err(None, Diagnosis::DuplicateParameterName);
        }
        proof {
            assert(names@.subrange(0, i + 1) =~= names@.subrange(0, i as int).push(names@[i as int]));
        }
        i = i + 1;
    }
    proof {
        assert(names@.subrange(0, names@.len() as int) =~= names@);
    }
    let mut j: usize = 0;
    while j < declarations.len()
        invariant
            j <= declarations@.len(),
            forall|k: int| 0 <= k < j ==> (#[trigger] declarations@[k] matches Some(x) ==> names@.contains(x)),
        decreases declarations@.len() - j,
    {
        if let Some(x) = declarations[j] {
            proof {
                assert(names@.subrange(0, names@.len() as int) =~= names@);
            }
            if !contains_name(names, x, names.len()) {
                proof {
                    assert(declared_names(declarations@).contains(x));
                }
                return Diag::err(None, Diagnosis::MissingParameterInOldStyle);
            }
        }
        j = j + 1;
    }
    let mut diff: Vec<StringId> = Vec::new();
    let mut i: usize = 0;
    while i < names.len()
        invariant
            i <= names@.len(),
            names@.no_duplicates(),
            diff@.no_duplicates(),
            forall|x: StringId| diff@.contains(x) <==> (names@.subrange(0, i as int).contains(x) && !declarations@.contains(Some(x))),
        decreases names@.len() - i,
    {
        proof {
            assert(names@.subrange(0, i + 1) =~= names@.subrange(0, i as int).push(names@[i as int]));
        }
        let ghost before = diff@;
        let ghost y = names@[i as int];
        let ghost s0 = names@.subrange(0, i as int);
        let ghost s1 = names@.subrange(0, i + 1);
        proof {
            if names@.subrange(0, i as int).contains(y) {
                let k = choose|k: int| 0 <= k < i && names@.subrange(0, i as int)[k] == y;
                assert(names@[k] == names@[i as int]);
            }
            assert(!names@.subrange(0, i as int).contains(y));
            assert(!before.contains(y));
        }
        if !declares(&declarations, names[i]) {
            diff.push(names[i]);
            proof {
                assert forall|a: int, b: int| 0 <= a < b < diff@.len() implies diff@[a] != diff@[b] by {
                    if b == diff@.len() - 1 {
                        assert(before[a] == diff@[a]);
                    } else {
                        assert(before[a] == diff@[a] && before[b] == diff@[b]);
                    }
                }
            }
        }
        proof {
            assert forall|x: StringId| diff@.contains(x) <==> (s1.contains(x) && !declarations@.contains(Some(x))) by {
                if diff@.contains(x) && x != y {
                    let k = choose|k: int| 0 <= k < diff@.len() && diff@[k] == x;
                    assert(before[k] == x);
                }
                if s1.contains(x) && x != y {
                    let k = choose|k: int| 0 <= k < s1.len() && s1[k] == x;
                    assert(s0[k] == x);
                }
                if x == y && !declarations@.contains(Some(x)) {
                    assert(diff@[diff@.len() - 1] == y);
                }
                if before.contains(x) {
                    let k = choose|k: int| 0 <= k < before.len() && before[k] == x;
                    assert(diff@[k] == x);
                }
                if s0.contains(x) {
                    let k = choose|k: int| 0 <= k < s0.len() && s0[k] == x;
                    assert(s1[k] == x);
                }
                if x == y {
                    assert(s1[i as int] == y);
                }
            }
        }
        i = i + 1;
    }
    proof {
        assert(names@.subrange(0, names@.len() as int) =~= names@);
        assert(diff@.to_set() =~= names@.to_set().difference(declared_names(declarations@)));
        assert forall|x: StringId| #[trigger] declared_names(declarations@).contains(x) implies names@.contains(x) by {
            let k = choose|k: int| 0 <= k < declarations@.len() && declarations@[k] == Some(x);
            assert(declarations@[k] matches Some(y) ==> names@.contains(y));
        }
    }
    Diag::ok(Some(diff))
}

/// 6.7.1 A parameter may only be declared `register`.
pub fn param_storage_only_register(storage: Storage) -> (d: Diag<Option<()>>)
    ensures
        d == if storage == Storage::Register {
            Diag { res: Some(()), diagnosis: None }
        } else {
            Diag { res: None::<()>, diagnosis: Some(Diagnosis::ParameterNotRegister) }
        },
{
    match storage {
        Storage::Register => Diag::ok(Some(())),
        _ => Diag::err(None, Diagnosis::ParameterNotRegister),
    }
}

/// A typedef name needs no further check here.
pub fn check_typedef(_name: &Name) -> (d: Diag<bool>)
    ensures
        d == (Diag { res: true, diagnosis: None }),
{
    Diag::ok(true)
}

/// 6.7.2 A declaration of an object at file scope without an initializer,
/// and without a storage class or with `static`, is a tentative definition.
pub fn is_tentative_definition(init_declarator: &InitDeclaratorNode, storage: Option<Storage>) -> (b: bool)
    ensures
        b == (init_declarator.initializer is None && (storage is None || storage == Some(Storage::Static))),
{
    init_declarator.initializer.is_none() && matches!(storage, None | Some(Storage::Static))
}

/// 6.7.2 A tentative definition with no later definition is initialized to
/// zero; nothing is reported.
pub fn tentative_defintion_init_zero() -> (d: Diag<()>)
    ensures
        d.diagnosis is None,
{
    Diag::ok(())
}

/// 6.7.2 Incomplete types of internal tentative definitions are checked when
/// the unit is complete; nothing is reported here.
pub fn no_internal_incomplete_type() -> (d: Diag<bool>)
    ensures
        d == (Diag { res: true, diagnosis: None }),
{
    Diag::ok(true)
}

} // verus!
