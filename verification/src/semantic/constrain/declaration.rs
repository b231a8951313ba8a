//! Constraints on declarations (6.5).

use vstd::prelude::*;

use crate::ast::{DeclarationSpecifier, Name, Qualifier, Storage, TypeSpecifier, Value};
use crate::ast::TypeSpecifier::{Char, Double, Float, Int, Long, Short, Signed, Unsigned, Void};
use crate::semantic::diagnosis::{Diag, Diagnosis};
use crate::semantic::model::resolved_type::{QualifiedType, ResolvedType};
use crate::semantic::resolution::scope::ScopeKind;
use crate::target::Target;

verus! {

/// The storage-class specifiers among `s`, in order.
pub open spec fn storages(s: Seq<DeclarationSpecifier>) -> Seq<Storage>
    decreases s.len(),
{
    if s.len() == 0 {
        Seq::empty()
    } else {
        let r = storages(s.drop_last());
        match s.last() {
            DeclarationSpecifier::Storage(x) => r.push(x),
            _ => r,
        }
    }
}

/// The type qualifiers among `s`, in order.
pub open spec fn qualifiers(s: Seq<DeclarationSpecifier>) -> Seq<Qualifier>
    decreases s.len(),
{
    if s.len() == 0 {
        Seq::empty()
    } else {
        let r = qualifiers(s.drop_last());
        match s.last() {
            DeclarationSpecifier::Qualifier(q) => r.push(q),
            _ => r,
        }
    }
}

/// The type specifiers among `s`, in order.
pub open spec fn type_specifiers(s: Seq<DeclarationSpecifier>) -> Seq<TypeSpecifier>
    decreases s.len(),
{
    if s.len() == 0 {
        Seq::empty()
    } else {
        let r = type_specifiers(s.drop_last());
        match s.last() {
            DeclarationSpecifier::Type(t) => r.push(t),
            _ => r,
        }
    }
}

/// How many times `q` occurs in `s`.
pub open spec fn count(s: Seq<Qualifier>, q: Qualifier) -> nat
    decreases s.len(),
{
    if s.len() == 0 {
        0
    } else {
        count(s.drop_last(), q) + if s.last() == q { 1nat } else { 0 }
    }
}

/// 6.5.1 At most one storage-class specifier may be given; the first one is kept.
pub fn get_storage(specifiers: &[DeclarationSpecifier]) -> (d: Diag<Option<Storage>>)
    ensures
        d.res == (if storages(specifiers@).len() > 0 { Some(storages(specifiers@)[0]) } else { None }),
        d.diagnosis == (if storages(specifiers@).len() > 1 { Some(Diagnosis::MultipleStorageSpecifiers) } else { None }),
{
    let mut first: Option<Storage> = None;
    let mut count: usize = 0;
    let mut i: usize = 0;
    while i < specifiers.len()
        invariant
            i <= specifiers@.len(),
            count == if storages(specifiers@.subrange(0, i as int)).len() > 1 {
                2
            } else {
                storages(specifiers@.subrange(0, i as int)).len()
            },
            first == (if storages(specifiers@.subrange(0, i as int)).len() > 0 {
                Some(storages(specifiers@.subrange(0, i as int))[0])
            } else {
                None
            }),
        decreases specifiers@.len() - i,
    {
        proof {
            assert(specifiers@.subrange(0, i + 1).drop_last() =~= specifiers@.subrange(0, i as int));
        }
        if let DeclarationSpecifier::Storage(s) = specifiers[i] {
            if count == 0 {
                first = Some(s);
            }
            if count < 2 {
                count = count + 1;
            }
        }
        i = i + 1;
    }
    proof {
        assert(specifiers@.subrange(0, specifiers@.len() as int) =~= specifiers@);
    }
    if count > 1 {
        Diag::err(first, Diagnosis::MultipleStorageSpecifiers)
    } else {
        Diag::ok(first)
    }
}

/// 6.5.4.3 A function declared in a block may only be `extern`.
pub fn extern_function_only(scope_type: ScopeKind, storage: Storage) -> (d: Diag<()>)
    ensures
        d.diagnosis == if (scope_type == ScopeKind::Block || scope_type == ScopeKind::Function) && storage
            != Storage::Extern {
            Some(Diagnosis::BlockScopeNotExtern)
        } else {
            None
        },
{
    if (scope_type == ScopeKind::Block || scope_type == ScopeKind::Function) && storage != Storage::Extern {
        Diag::err((), Diagnosis::BlockScopeNotExtern)
    } else {
        Diag::ok(())
    }
}

/// `types` holds exactly the specifiers of `set`, each once.
pub open spec fn same_set(types: Seq<TypeSpecifier>, set: Seq<TypeSpecifier>) -> bool {
    types.len() == set.len() && forall|i: int| 0 <= i < set.len() ==> types.contains(#[trigger] set[i])
}

/// 6.5.2 The arithmetic or void type a list of basic type specifiers names,
/// in any order; `None` for a list that names none.
pub open spec fn spec_basic_type(t: Seq<TypeSpecifier>) -> Option<ResolvedType> {
    if same_set(t, seq![]) {
        Some(ResolvedType::Int)
    } else if same_set(t, seq![Void]) {
        Some(ResolvedType::Void)
    } else if same_set(t, seq![Char]) {
        Some(ResolvedType::Char)
    } else if same_set(t, seq![Signed, Char]) {
        Some(ResolvedType::SignedChar)
    } else if same_set(t, seq![Unsigned, Char]) {
        Some(ResolvedType::UnsignedChar)
    } else if same_set(t, seq![Short]) || same_set(t, seq![Signed, Short]) || same_set(t, seq![Short, Int])
        || same_set(t, seq![Signed, Short, Int]) {
        Some(ResolvedType::Short)
    } else if same_set(t, seq![Unsigned, Short]) || same_set(t, seq![Unsigned, Short, Int]) {
        Some(ResolvedType::UnsignedShort)
    } else if same_set(t, seq![Int]) || same_set(t, seq![Signed]) || same_set(t, seq![Signed, Int]) {
        Some(ResolvedType::Int)
    } else if same_set(t, seq![Unsigned]) || same_set(t, seq![Unsigned, Int]) {
        Some(ResolvedType::UnsignedInt)
    } else if same_set(t, seq![Long]) || same_set(t, seq![Signed, Long]) || same_set(t, seq![Long, Int])
        || same_set(t, seq![Signed, Long, Int]) {
        Some(ResolvedType::Long)
    } else if same_set(t, seq![Unsigned, Long]) || same_set(t, seq![Unsigned, Long, Int]) {
        Some(ResolvedType::UnsignedLong)
    } else if same_set(t, seq![Float]) {
        Some(ResolvedType::Float)
    } else if same_set(t, seq![Double]) {
        Some(ResolvedType::Double)
    } else if same_set(t, seq![Long, Double]) {
        Some(ResolvedType::LongDouble)
    } else {
        None
    }
}

fn contains(types: &[TypeSpecifier], t: TypeSpecifier) -> (b: bool)
    ensures
        b == types@.contains(t),
{
    let mut i: usize = 0;
    while i < types.len()
        invariant
            i <= types@.len(),
            forall|j: int| 0 <= j < i ==> types@[j] != t,
        decreases types@.len() - i,
    {
        if types[i] == t {
            return true;
        }
        i = i + 1;
    }
    false
}

fn is_set(types: &[TypeSpecifier], set: Vec<TypeSpecifier>) -> (b: bool)
    ensures
        b == same_set(types@, set@),
{
    if types.len() != set.len() {
        return false;
    }
    let mut i: usize = 0;
    while i < set.len()
        invariant
            i <= set@.len(),
            forall|j: int| 0 <= j < i ==> types@.contains(#[trigger] set@[j]),
        decreases set@.len() - i,
    {
        if !contains(types, set[i]) {
            return false;
        }
        i = i + 1;
    }
    true
}

fn is_set1(types: &[TypeSpecifier], a: TypeSpecifier) -> (b: bool)
    ensures
        b == same_set(types@, seq![a]),
{
    let v: Vec<TypeSpecifier> = vec![a];
    assert(v@ =~= seq![a]);
    is_set(types, v)
}

fn is_set2(types: &[TypeSpecifier], a: TypeSpecifier, b: TypeSpecifier) -> (r: bool)
    ensures
        r == same_set(types@, seq![a, b]),
{
    let v: Vec<TypeSpecifier> = vec![a, b];
    assert(v@ =~= seq![a, b]);
    is_set(types, v)
}

fn is_set3(types: &[TypeSpecifier], a: TypeSpecifier, b: TypeSpecifier, c: TypeSpecifier) -> (r: bool)
    ensures
        r == same_set(types@, seq![a, b, c]),
{
    let v: Vec<TypeSpecifier> = vec![a, b, c];
    assert(v@ =~= seq![a, b, c]);
    is_set(types, v)
}

/// 6.5.2 The type named by a list of type specifiers other than struct,
/// union, enum and typedef names; an invalid combination is reported.
#[verifier::rlimit(50)]
pub fn basic_type(types: &[TypeSpecifier]) -> (d: Diag<Option<ResolvedType>>)
    ensures
        d.res == spec_basic_type(types@),
        d.diagnosis == if spec_basic_type(types@) is None { Some(Diagnosis::InvalidTypeSpecifier) } else { None },
{
    let ty = if types.len() == 0 {
        ResolvedType::Int
    } else if is_set1(types, Void) {
        ResolvedType::Void
    } else if is_set1(types, Char) {
        ResolvedType::Char
    } else if is_set2(types, Signed, Char) {
        ResolvedType::SignedChar
    } else if is_set2(types, Unsigned, Char) {
        ResolvedType::UnsignedChar
    } else if is_set1(types, Short) || is_set2(types, Signed, Short) || is_set2(types, Short, Int)
        || is_set3(types, Signed, Short, Int) {
        ResolvedType::Short
    } else if is_set2(types, Unsigned, Short) || is_set3(types, Unsigned, Short, Int) {
        ResolvedType::UnsignedShort
    } else if is_set1(types, Int) || is_set1(types, Signed) || is_set2(types, Signed, Int) {
        ResolvedType::Int
    } else if is_set1(types, Unsigned) || is_set2(types, Unsigned, Int) {
        ResolvedType::UnsignedInt
    } else if is_set1(types, Long) || is_set2(types, Signed, Long) || is_set2(types, Long, Int)
        || is_set3(types, Signed, Long, Int) {
        ResolvedType::Long
    } else if is_set2(types, Unsigned, Long) || is_set3(types, Unsigned, Long, Int) {
        ResolvedType::UnsignedLong
    } else if is_set1(types, Float) {
        ResolvedType::Float
    } else if is_set1(types, Double) {
        ResolvedType::Double
    } else if is_set2(types, Long, Double) {
        ResolvedType::LongDouble
    } else {
        return Diag::err(None, Diagnosis::InvalidTypeSpecifier);
    };
    Diag::ok(Some(ty))
}

/// 6.5.2.1 A bit-field has type int or unsigned int and a width from 0 to
/// the width of its type; a named one has a positive width. The width is
/// given back when it is valid.
pub open spec fn spec_bit_width(target: &Target, ty: ResolvedType, value: Option<Value>, name: Option<Name>) -> Diag<Option<i32>> {
    if !(ty is Int || ty is UnsignedInt) {
        Diag { res: None, diagnosis: Some(Diagnosis::NonIntBitFieldType) }
    } else if value is None {
        Diag { res: None, diagnosis: None }
    } else {
        let v = value->0;
        if !v.spec_is_integer() {
            Diag { res: None, diagnosis: Some(Diagnosis::NonIntegerConstantExpression) }
        } else if v.spec_is_negative() {
            Diag { res: None, diagnosis: Some(Diagnosis::NegativeBitFieldWidth(name, v.spec_i64())) }
        } else if v.spec_bits() > target.spec_int_bits(ty) {
            Diag {
                res: None,
                diagnosis: Some(
                    Diagnosis::BitFieldWidthTooLarge(name, v.spec_bits(), target.spec_int_bits(ty) as u32),
                ),
            }
        } else if v.spec_bits() == 0 && name is Some {
            Diag { res: None, diagnosis: Some(Diagnosis::ZeroWidthNamedBitField(name->0)) }
        } else {
            Diag { res: Some(v.spec_bits() as i32), diagnosis: None }
        }
    }
}

pub fn check_bit_width(target: &Target, ty: &ResolvedType, value: Option<Value>, name: Option<Name>) -> (d: Diag<
    Option<i32>,
>)
    requires
        target.wf(),
    ensures
        d == spec_bit_width(target, *ty, value, name),
{
    if !matches!(ty, ResolvedType::Int | ResolvedType::UnsignedInt) {
        return Diag::err(None, Diagnosis::NonIntBitFieldType);
    }
    let value = match value {
        Some(v) => v,
        None => return Diag::ok(None),
    };
    let width = match value.get_integer_value() {
        Some(w) => w,
        None => return Diag::err(None, Diagnosis::NonIntegerConstantExpression),
    };
    if value.is_negative() {
        return Diag::err(None, Diagnosis::NegativeBitFieldWidth(name, value.to_i64()));
    }
    let bits = match target.bits(ty) {
        Some(b) => b,
        None => return Diag::err(None, Diagnosis::NonIntBitFieldType),
    };
    if width > bits as u64 {
        return Diag::err(None, Diagnosis::BitFieldWidthTooLarge(name, width, bits));
    }
    match (width, name) {
        (0, Some(name)) => Diag::err(None, Diagnosis::ZeroWidthNamedBitField(name)),
        _ => Diag::ok(Some(width as i32)),
    }
}

/// 6.5.3 The same type qualifier shall not appear more than once; the result
/// tells whether `const` and `volatile` appear.
pub fn check_qualifier(qualifiers: &[Qualifier]) -> (d: Diag<(bool, bool)>)
    ensures
        d.res == (count(qualifiers@, Qualifier::Const) >= 1, count(qualifiers@, Qualifier::Volatile) >= 1),
        d.diagnosis == if count(qualifiers@, Qualifier::Const) > 1 || count(qualifiers@, Qualifier::Volatile) > 1 {
            Some(Diagnosis::DuplicateTypeQualifiers)
        } else {
            None
        },
{
    let mut const_count: usize = 0;
    let mut volatile_count: usize = 0;
    let mut i: usize = 0;
    while i < qualifiers.len()
        invariant
            i <= qualifiers@.len(),
            const_count == count(qualifiers@.subrange(0, i as int), Qualifier::Const),
            volatile_count == count(qualifiers@.subrange(0, i as int), Qualifier::Volatile),
            const_count <= i,
            volatile_count <= i,
        decreases qualifiers@.len() - i,
    {
        proof {
            assert(qualifiers@.subrange(0, i + 1).drop_last() =~= qualifiers@.subrange(0, i as int));
        }
        match qualifiers[i] {
            Qualifier::Const => const_count = const_count + 1,
            Qualifier::Volatile => volatile_count = volatile_count + 1,
        }
        i = i + 1;
    }
    proof {
        assert(qualifiers@.subrange(0, qualifiers@.len() as int) =~= qualifiers@);
    }
    let ret = (const_count >= 1, volatile_count >= 1);
    if const_count > 1 || volatile_count > 1 {
        return Diag::err(ret, Diagnosis::DuplicateTypeQualifiers);
    }
    Diag::ok(ret)
}

/// The qualifiers among declaration specifiers, checked as `check_qualifier` does.
pub fn get_qualifier(specifiers: &[DeclarationSpecifier]) -> (d: Diag<(bool, bool)>)
    ensures
        d.res == (count(qualifiers(specifiers@), Qualifier::Const) >= 1, count(qualifiers(specifiers@), Qualifier::Volatile)
            >= 1),
        d.diagnosis == if count(qualifiers(specifiers@), Qualifier::Const) > 1 || count(
            qualifiers(specifiers@),
            Qualifier::Volatile,
        ) > 1 {
            Some(Diagnosis::DuplicateTypeQualifiers)
        } else {
            None
        },
{
    let mut found: Vec<Qualifier> = Vec::new();
    let mut i: usize = 0;
    while i < specifiers.len()
        invariant
            i <= specifiers@.len(),
            found@ == qualifiers(specifiers@.subrange(0, i as int)),
        decreases specifiers@.len() - i,
    {
        proof {
            assert(specifiers@.subrange(0, i + 1).drop_last() =~= specifiers@.subrange(0, i as int));
        }
        if let DeclarationSpecifier::Qualifier(q) = specifiers[i] {
            found.push(q);
        }
        i = i + 1;
    }
    proof {
        assert(specifiers@.subrange(0, specifiers@.len() as int) =~= specifiers@);
    }
    check_qualifier(found.as_slice())
}

/// 6.5.4.3 A function shall not return an array or a function.
pub fn check_return_type(ret: &ResolvedType, ty: QualifiedType) -> (d: Diag<()>)
    ensures
        d.diagnosis == match *ret {
            ResolvedType::Array { .. } => Some(Diagnosis::FunctionReturningArray(ty)),
            ResolvedType::Function { .. } => Some(Diagnosis::FunctionReturningFunction(ty)),
            _ => None,
        },
{
    match ret {
        ResolvedType::Array { .. } => Diag::err((), Diagnosis::FunctionReturningArray(ty)),
        ResolvedType::Function { .. } => Diag::err((), Diagnosis::FunctionReturningFunction(ty)),
        _ => Diag::ok(()),
    }
}

/// 6.7.2 A variable defined here shall have a complete type.
pub fn check_complete_object(is_complete: bool, ty: QualifiedType) -> (d: Diag<()>)
    ensures
        d.diagnosis == if is_complete { None } else { Some(Diagnosis::IncompleteVariable(ty)) },
{
    if is_complete {
        Diag::ok(())
    } else {
        Diag::err((), Diagnosis::IncompleteVariable(ty))
    }
}

/// 6.5.2.1 A member shall have an object type.
pub fn check_member_type(is_object: bool, ty: QualifiedType) -> (d: Diag<()>)
    ensures
        d.diagnosis == if is_object { None } else { Some(Diagnosis::InvalidMemberType(ty)) },
{
    if is_object {
        Diag::ok(())
    } else {
        Diag::err((), Diagnosis::InvalidMemberType(ty))
    }
}

/// 6.5.4.2 The element type of an array shall be an object type.
pub fn check_element_type(is_object: bool, ty: QualifiedType) -> (d: Diag<()>)
    ensures
        d.diagnosis == if is_object { None } else { Some(Diagnosis::InvalidElementType(ty)) },
{
    if is_object {
        Diag::ok(())
    } else {
        Diag::err((), Diagnosis::InvalidElementType(ty))
    }
}



/// A specifier found in a list that holds exactly the one specifier `a` is `a`.
proof fn lemma_same_set1(t: Seq<TypeSpecifier>, a: TypeSpecifier, x: TypeSpecifier)
    requires
        same_set(t, seq![a]),
        t.contains(x),
    ensures
        x == a,
{
    let k = choose|k: int| 0 <= k < t.len() && t[k] == x;
    assert(seq![a][0] == a);
    assert(t.contains(a));
}

/// A specifier found in a list that holds exactly the distinct specifiers
/// `a` and `b` is one of them.
proof fn lemma_same_set2(t: Seq<TypeSpecifier>, a: TypeSpecifier, b: TypeSpecifier, x: TypeSpecifier)
    requires
        same_set(t, seq![a, b]),
        a != b,
        t.contains(x),
    ensures
        x == a || x == b,
{
    let k = choose|k: int| 0 <= k < t.len() && t[k] == x;
    let s = seq![a, b];
    assert(s[0] == a && s[1] == b);
    assert(t.contains(s[0]) && t.contains(s[1]));
    let p0 = choose|p: int| 0 <= p < t.len() && t[p] == a;
    let p1 = choose|p: int| 0 <= p < t.len() && t[p] == b;
}

/// A specifier found in a list that holds exactly the distinct specifiers
/// `a`, `b` and `c` is one of them.
proof fn lemma_same_set3(t: Seq<TypeSpecifier>, a: TypeSpecifier, b: TypeSpecifier, c: TypeSpecifier, x: TypeSpecifier)
    requires
        same_set(t, seq![a, b, c]),
        a != b && a != c && b != c,
        t.contains(x),
    ensures
        x == a || x == b || x == c,
{
    let k = choose|k: int| 0 <= k < t.len() && t[k] == x;
    let s = seq![a, b, c];
    assert(s[0] == a && s[1] == b && s[2] == c);
    assert(t.contains(s[0]) && t.contains(s[1]) && t.contains(s[2]));
    let p0 = choose|p: int| 0 <= p < t.len() && t[p] == a;
    let p1 = choose|p: int| 0 <= p < t.len() && t[p] == b;
    let p2 = choose|p: int| 0 <= p < t.len() && t[p] == c;
}

/// An unsigned integer type.
pub open spec fn is_unsigned_type(t: ResolvedType) -> bool {
    t is UnsignedChar || t is UnsignedShort || t is UnsignedInt || t is UnsignedLong
}

/// A signed integer type, plain char aside.
pub open spec fn is_signed_type(t: ResolvedType) -> bool {
    t is SignedChar || t is Short || t is Int || t is Long
}

/// An integer type.
pub open spec fn is_integer_type(t: ResolvedType) -> bool {
    is_character_type(t) || is_unsigned_type(t) || is_signed_type(t)
}

/// A character type.
pub open spec fn is_character_type(t: ResolvedType) -> bool {
    t is Char || t is SignedChar || t is UnsignedChar
}

/// 6.5.2 What each specifier in a list that names a type makes of it:
/// `unsigned` an unsigned integer type, `signed` a signed one, `char` a
/// character type, `short` a short type, `long` a long type or long double,
/// `double` double or long double, `int` an integer type wider than char;
/// `float` and `void` name themselves. So `unsigned char`, in either
/// order, names unsigned char.
pub proof fn lemma_basic_type_signedness(t: Seq<TypeSpecifier>, x: TypeSpecifier)
    requires
        spec_basic_type(t) is Some,
        t.contains(x),
    ensures
        x == Unsigned ==> is_unsigned_type(spec_basic_type(t)->0),
        x == Signed ==> is_signed_type(spec_basic_type(t)->0),
        x == Char ==> is_character_type(spec_basic_type(t)->0),
        x == Short ==> spec_basic_type(t)->0 is Short || spec_basic_type(t)->0 is UnsignedShort,
        x == Long ==> spec_basic_type(t)->0 is Long || spec_basic_type(t)->0 is UnsignedLong || spec_basic_type(t)->0 is LongDouble,
        x == Double ==> spec_basic_type(t)->0 is Double || spec_basic_type(t)->0 is LongDouble,
        x == Float ==> spec_basic_type(t)->0 is Float,
        x == Void ==> spec_basic_type(t)->0 is Void,
        x == Int ==> is_integer_type(spec_basic_type(t)->0) && !is_character_type(spec_basic_type(t)->0),
{
    if same_set(t, seq![]) {
        assert(t.len() == 0);
    } else if same_set(t, seq![Void]) {
        lemma_same_set1(t, Void, x);
    } else if same_set(t, seq![Char]) {
        lemma_same_set1(t, Char, x);
    } else if same_set(t, seq![Signed, Char]) {
        lemma_same_set2(t, Signed, Char, x);
    } else if same_set(t, seq![Unsigned, Char]) {
        lemma_same_set2(t, Unsigned, Char, x);
    } else if same_set(t, seq![Short]) || same_set(t, seq![Signed, Short]) || same_set(t, seq![Short, Int])
        || same_set(t, seq![Signed, Short, Int]) {
        if same_set(t, seq![Short]) {
            lemma_same_set1(t, Short, x);
        } else if same_set(t, seq![Signed, Short]) {
            lemma_same_set2(t, Signed, Short, x);
        } else if same_set(t, seq![Short, Int]) {
            lemma_same_set2(t, Short, Int, x);
        } else {
            lemma_same_set3(t, Signed, Short, Int, x);
        }
    } else if same_set(t, seq![Unsigned, Short]) || same_set(t, seq![Unsigned, Short, Int]) {
        if same_set(t, seq![Unsigned, Short]) {
            lemma_same_set2(t, Unsigned, Short, x);
        } else {
            lemma_same_set3(t, Unsigned, Short, Int, x);
        }
    } else if same_set(t, seq![Int]) || same_set(t, seq![Signed]) || same_set(t, seq![Signed, Int]) {
        if same_set(t, seq![Int]) {
            lemma_same_set1(t, Int, x);
        } else if same_set(t, seq![Signed]) {
            lemma_same_set1(t, Signed, x);
        } else {
            lemma_same_set2(t, Signed, Int, x);
        }
    } else if same_set(t, seq![Unsigned]) || same_set(t, seq![Unsigned, Int]) {
        if same_set(t, seq![Unsigned]) {
            lemma_same_set1(t, Unsigned, x);
        } else {
            lemma_same_set2(t, Unsigned, Int, x);
        }
    } else if same_set(t, seq![Long]) || same_set(t, seq![Signed, Long]) || same_set(t, seq![Long, Int])
        || same_set(t, seq![Signed, Long, Int]) {
        if same_set(t, seq![Long]) {
            lemma_same_set1(t, Long, x);
        } else if same_set(t, seq![Signed, Long]) {
            lemma_same_set2(t, Signed, Long, x);
        } else if same_set(t, seq![Long, Int]) {
            lemma_same_set2(t, Long, Int, x);
        } else {
            lemma_same_set3(t, Signed, Long, Int, x);
        }
    } else if same_set(t, seq![Unsigned, Long]) || same_set(t, seq![Unsigned, Long, Int]) {
        if same_set(t, seq![Unsigned, Long]) {
            lemma_same_set2(t, Unsigned, Long, x);
        } else {
            lemma_same_set3(t, Unsigned, Long, Int, x);
        }
    } else if same_set(t, seq![Float]) {
        lemma_same_set1(t, Float, x);
    } else if same_set(t, seq![Double]) {
        lemma_same_set1(t, Double, x);
    } else if same_set(t, seq![Long, Double]) {
        lemma_same_set2(t, Long, Double, x);
    }
}


proof fn lemma_in1(t: Seq<TypeSpecifier>, a: TypeSpecifier)
    requires
        same_set(t, seq![a]),
    ensures
        t.contains(a),
{
    assert(seq![a][0] == a);
}

proof fn lemma_in2(t: Seq<TypeSpecifier>, a: TypeSpecifier, b: TypeSpecifier)
    requires
        same_set(t, seq![a, b]),
    ensures
        t.contains(a) && t.contains(b),
{
    assert(seq![a, b][0] == a && seq![a, b][1] == b);
}

proof fn lemma_in3(t: Seq<TypeSpecifier>, a: TypeSpecifier, b: TypeSpecifier, c: TypeSpecifier)
    requires
        same_set(t, seq![a, b, c]),
    ensures
        t.contains(a) && t.contains(b) && t.contains(c),
{
    assert(seq![a, b, c][0] == a && seq![a, b, c][1] == b && seq![a, b, c][2] == c);
}

/// 6.5.2 The type a list of specifiers names tells which specifiers it
/// holds: an unsigned type needs `unsigned`, signed char needs `signed`, a
/// character type `char`, a short type `short`, a long type or long double
/// `long`, double or long double `double`; and the empty list names int.
pub proof fn lemma_basic_type_needs(t: Seq<TypeSpecifier>)
    requires
        spec_basic_type(t) is Some,
    ensures
        t.len() == 0 ==> spec_basic_type(t)->0 is Int,
        is_unsigned_type(spec_basic_type(t)->0) ==> t.contains(Unsigned),
        spec_basic_type(t)->0 is SignedChar ==> t.contains(Signed),
        is_character_type(spec_basic_type(t)->0) ==> t.contains(Char),
        (spec_basic_type(t)->0 is Short || spec_basic_type(t)->0 is UnsignedShort) ==> t.contains(Short),
        (spec_basic_type(t)->0 is Long || spec_basic_type(t)->0 is UnsignedLong || spec_basic_type(t)->0 is LongDouble) ==> t.contains(Long),
        (spec_basic_type(t)->0 is Double || spec_basic_type(t)->0 is LongDouble) ==> t.contains(Double),
        spec_basic_type(t)->0 is Float ==> t.contains(Float),
        spec_basic_type(t)->0 is Void ==> t.contains(Void),
{
    if same_set(t, seq![]) {
    } else if same_set(t, seq![Void]) {
        lemma_in1(t, Void);
    } else if same_set(t, seq![Char]) {
        lemma_in1(t, Char);
    } else if same_set(t, seq![Signed, Char]) {
        lemma_in2(t, Signed, Char);
    } else if same_set(t, seq![Unsigned, Char]) {
        lemma_in2(t, Unsigned, Char);
    } else if same_set(t, seq![Short]) || same_set(t, seq![Signed, Short]) || same_set(t, seq![Short, Int])
        || same_set(t, seq![Signed, Short, Int]) {
        if same_set(t, seq![Short]) {
            lemma_in1(t, Short);
        } else if same_set(t, seq![Signed, Short]) {
            lemma_in2(t, Signed, Short);
        } else if same_set(t, seq![Short, Int]) {
            lemma_in2(t, Short, Int);
        } else {
            lemma_in3(t, Signed, Short, Int);
        }
    } else if same_set(t, seq![Unsigned, Short]) || same_set(t, seq![Unsigned, Short, Int]) {
        if same_set(t, seq![Unsigned, Short]) {
            lemma_in2(t, Unsigned, Short);
        } else {
            lemma_in3(t, Unsigned, Short, Int);
        }
    } else if same_set(t, seq![Int]) || same_set(t, seq![Signed]) || same_set(t, seq![Signed, Int]) {
    } else if same_set(t, seq![Unsigned]) || same_set(t, seq![Unsigned, Int]) {
        if same_set(t, seq![Unsigned]) {
            lemma_in1(t, Unsigned);
        } else {
            lemma_in2(t, Unsigned, Int);
        }
    } else if same_set(t, seq![Long]) || same_set(t, seq![Signed, Long]) || same_set(t, seq![Long, Int])
        || same_set(t, seq![Signed, Long, Int]) {
        if same_set(t, seq![Long]) {
            lemma_in1(t, Long);
        } else if same_set(t, seq![Signed, Long]) {
            lemma_in2(t, Signed, Long);
        } else if same_set(t, seq![Long, Int]) {
            lemma_in2(t, Long, Int);
        } else {
            lemma_in3(t, Signed, Long, Int);
        }
    } else if same_set(t, seq![Unsigned, Long]) || same_set(t, seq![Unsigned, Long, Int]) {
        if same_set(t, seq![Unsigned, Long]) {
            lemma_in2(t, Unsigned, Long);
        } else {
            lemma_in3(t, Unsigned, Long, Int);
        }
    } else if same_set(t, seq![Float]) {
        lemma_in1(t, Float);
    } else if same_set(t, seq![Double]) {
        lemma_in1(t, Double);
    } else if same_set(t, seq![Long, Double]) {
        lemma_in2(t, Long, Double);
    }
}

} // verus!
