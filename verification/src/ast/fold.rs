//! Folding of integer constants in the types of a target: the arithmetic of
//! C integer types, wrapping to the width of the type, with overflow of a
//! signed type reported.

use vstd::prelude::*;
use vstd::arithmetic::power2::{lemma2_to64, lemma_pow2_unfold, pow2};
use vstd::arithmetic::div_mod::lemma_fundamental_div_mod_converse;
use std::cmp::Ordering;

use crate::ast::{BinaryOp, UnaryOp, Value};
use crate::semantic::diagnosis::{Diag, Diagnosis};
use crate::semantic::model::resolved_type::ResolvedType;
use crate::target::{wrap, Target};

verus! {

/// `a / b` rounded toward zero, as C90 leaves it open and the folder does it.
pub open spec fn trunc_div(a: int, b: int) -> int {
    let q = abs(a) / abs(b);
    if (a < 0) != (b < 0) {
        -q
    } else {
        q
    }
}

/// The remainder that goes with `trunc_div`: `a == b * trunc_div(a, b) + trunc_rem(a, b)`.
pub open spec fn trunc_rem(a: int, b: int) -> int {
    a - b * trunc_div(a, b)
}

pub open spec fn abs(a: int) -> int {
    if a < 0 {
        -a
    } else {
        a
    }
}

/// The exact mathematical result of `op` on two integer constants, before it
/// is brought into the result type of `bits` bits. Bitwise operators act on
/// the 64-bit two's complement representations; shifts by a count outside
/// `0..bits` give 0, or -1 for a negative value shifted right.
pub open spec fn exact_binary(op: BinaryOp, lhs: Value, rhs: Value, bits: nat) -> int {
    let a = lhs.spec_int();
    let b = rhs.spec_int();
    match op {
        BinaryOp::Add => a + b,
        BinaryOp::Sub => a - b,
        BinaryOp::Mul => a * b,
        BinaryOp::Div => if b == 0 { 0 } else { trunc_div(a, b) },
        BinaryOp::Mod => if b == 0 { 0 } else { trunc_rem(a, b) },
        BinaryOp::Left => if 0 <= b < bits { a * pow2(b as nat) } else { 0 },
        BinaryOp::Right => if 0 <= b < bits {
            a / pow2(b as nat) as int
        } else if a < 0 {
            -1
        } else {
            0
        },
        BinaryOp::BitAnd => (lhs.spec_bits() & rhs.spec_bits()) as int,
        BinaryOp::BitOr => (lhs.spec_bits() | rhs.spec_bits()) as int,
        BinaryOp::BitXor => (lhs.spec_bits() ^ rhs.spec_bits()) as int,
        BinaryOp::Lower => if a < b { 1 } else { 0 },
        BinaryOp::Greater => if a > b { 1 } else { 0 },
        BinaryOp::LowerEq => if a <= b { 1 } else { 0 },
        BinaryOp::GreaterEq => if a >= b { 1 } else { 0 },
        BinaryOp::Eq => if a == b { 1 } else { 0 },
        BinaryOp::Neq => if a != b { 1 } else { 0 },
        BinaryOp::LogicalAnd => if a != 0 && b != 0 { 1 } else { 0 },
        BinaryOp::LogicalOr => if a != 0 || b != 0 { 1 } else { 0 },
    }
}

/// The exact result of a unary arithmetic operator.
pub open spec fn exact_unary(op: UnaryOp, v: Value) -> int {
    match op {
        UnaryOp::Minus => -v.spec_int(),
        UnaryOp::BitNot => (!v.spec_bits()) as int,
        UnaryOp::LogicalNot => if v.spec_int() == 0 { 1 } else { 0 },
        _ => v.spec_int(),
    }
}

/// The constant of the integer type `ty` with the value `r`, in the
/// representation the folder uses for that type.
pub open spec fn value_of(ty: ResolvedType, r: int) -> Value {
    match ty {
        ResolvedType::Long => Value::Long(r as i64),
        ResolvedType::UnsignedLong => Value::UnsignedLong(r as u64),
        ResolvedType::UnsignedInt => Value::UnsignedInt(r as u32),
        _ => Value::Int(r as i32),
    }
}

/// `v` brought into the integer type `ty`: reduced modulo 2 to the width.
pub open spec fn type_wrap(target: &Target, ty: ResolvedType, v: int) -> int {
    wrap(v, target.spec_int_bits(ty), target.spec_is_signed(ty))
}

/// `v` lies in the range of the integer type `ty`.
pub open spec fn in_range(target: &Target, ty: ResolvedType, v: int) -> bool {
    target.spec_min_value(ty) <= v <= target.spec_max_value(ty)
}

/// The folded result of `v` in type `ty`: the wrapped value, and an overflow
/// diagnosis when `ty` is signed and `v` is out of its range.
pub open spec fn folded(target: &Target, ty: ResolvedType, v: int) -> Diag<Value> {
    Diag {
        res: value_of(ty, type_wrap(target, ty, v)),
        diagnosis: if target.spec_is_signed(ty) && !in_range(target, ty, v) {
            Some(Diagnosis::ArithmeticOverflow)
        } else {
            None
        },
    }
}

/// What `Fold::unary` gives for any type and value.
pub open spec fn spec_unary(target: &Target, ty: ResolvedType, op: UnaryOp, value: Value) -> Diag<Value> {
    if ty.spec_is_integer() && value.spec_is_integer() {
        folded(target, ty, exact_unary(op, value))
    } else {
        Diag { res: value, diagnosis: Some(Diagnosis::NonIntegerConstantExpression) }
    }
}

/// What `Fold::binary` gives for any type and operands.
pub open spec fn spec_binary(target: &Target, ty: ResolvedType, op: BinaryOp, lhs: Value, rhs: Value) -> Diag<Value> {
    if !(ty.spec_is_integer() && lhs.spec_is_integer() && rhs.spec_is_integer()) {
        Diag { res: lhs, diagnosis: Some(Diagnosis::NonIntegerConstantExpression) }
    } else if op == BinaryOp::Div && rhs.spec_int() == 0 {
        Diag { res: value_of(ty, 0), diagnosis: Some(Diagnosis::DivisionByZero) }
    } else if op == BinaryOp::Mod && rhs.spec_int() == 0 {
        Diag { res: value_of(ty, 0), diagnosis: Some(Diagnosis::ModuloByZero) }
    } else {
        folded(target, ty, exact_binary(op, lhs, rhs, target.spec_int_bits(ty)))
    }
}

/// `2^e` for the exponents below 64.
fn pow2_u128(e: u32) -> (p: u128)
    requires
        e <= 64,
    ensures
        p == pow2(e as nat),
        1 <= p <= 0x1_0000_0000_0000_0000,
{
    proof {
        lemma2_to64();
    }
    let mut p: u128 = 1;
    let mut i: u32 = 0;
    while i < e
        invariant
            i <= e <= 64,
            p == pow2(i as nat),
            1 <= p <= 0x1_0000_0000_0000_0000,
            pow2(64) == 0x1_0000_0000_0000_0000,
        decreases e - i,
    {
        proof {
            lemma_pow2_unfold((i + 1) as nat);
            if i + 1 < 64 {
                vstd::arithmetic::power2::lemma_pow2_strictly_increases((i + 1) as nat, 64);
            }
        }
        p = p * 2;
        i = i + 1;
    }
    p
}

/// The signed number `if neg { -mag } else { mag }`.
pub open spec fn signed_mag(neg: bool, mag: u128) -> int {
    if neg {
        -(mag as int)
    } else {
        mag as int
    }
}

/// `-mag` or `mag` reduced into the range of a `bits`-wide integer.
fn wrap_mag(neg: bool, mag: u128, bits: u32, signed: bool) -> (r: i128)
    requires
        bits == 8 || bits == 16 || bits == 32 || bits == 64,
    ensures
        r as int == wrap(signed_mag(neg, mag), bits as nat, signed),
{
    let m = pow2_u128(bits);
    let q = mag / m;
    let r0 = mag % m;
    proof {
        assert(mag as int == q as int * m as int + r0 as int) by (nonlinear_arith)
            requires
                q == mag / m,
                r0 == mag % m,
                m > 0,
        ;
    }
    let rem: u128 = if !neg {
        proof {
            lemma_fundamental_div_mod_converse(mag as int, m as int, q as int, r0 as int);
        }
        r0
    } else if r0 == 0 {
        proof {
            assert(-(mag as int) == (-(q as int)) * m as int + 0) by (nonlinear_arith)
                requires
                    mag as int == q as int * m as int + r0 as int,
                    r0 == 0,
            ;
            lemma_fundamental_div_mod_converse(-(mag as int), m as int, -(q as int), 0);
        }
        0
    } else {
        proof {
            assert(-(mag as int) == (-(q as int) - 1) * m as int + (m - r0) as int) by (nonlinear_arith)
                requires
                    mag as int == q as int * m as int + r0 as int,
            ;
            lemma_fundamental_div_mod_converse(-(mag as int), m as int, -(q as int) - 1, (m - r0) as int);
        }
        m - r0
    };
    assert(rem as int == signed_mag(neg, mag) % m as int);
    if signed && rem >= m / 2 {
        rem as i128 - m as i128
    } else {
        rem as i128
    }
}

/// Whether `-mag` or `mag` lies between `min` and `max`.
fn mag_in_range(neg: bool, mag: u128, min: i64, max: u64) -> (b: bool)
    requires
        min <= 0,
    ensures
        b == (min <= signed_mag(neg, mag) <= max),
{
    if neg {
        let bound: i128 = 0 - (min as i128);
        mag <= bound as u128
    } else {
        mag <= max as u128
    }
}

/// The magnitude and sign of an integer constant.
fn split(v: Value) -> (r: (bool, u128))
    requires
        v.spec_is_integer(),
    ensures
        signed_mag(r.0, r.1) == v.spec_int(),
        r.1 < 0x1_0000_0000_0000_0000,
{
    let x = v.to_i128();
    if x < 0 {
        (true, (0 - x) as u128)
    } else {
        (false, x as u128)
    }
}

/// The constant folder of a target.
pub struct Fold<'a> {
    pub target: &'a Target,
}

impl<'a> Fold<'a> {
    pub fn new(target: &'a Target) -> (f: Self)
        ensures
            f.target == target,
    {
        Fold { target }
    }

    /// 6.2.1.2 The constant `value` converted to the integer type `ty`; `None`
    /// when either is not an integer.
    pub fn convert(&self, ty: &ResolvedType, value: Value) -> (r: Option<Value>)
        requires
            self.target.wf(),
        ensures
            r == self.target.spec_cast(*ty, value),
    {
        self.target.cast(ty, value)
    }

    /// `v` is the least value of the signed integer type `ty`.
    pub fn is_min(&self, ty: &ResolvedType, v: Value) -> (b: bool)
        requires
            self.target.wf(),
        ensures
            b == (ty.spec_is_integer() && v.spec_is_integer() && self.target.spec_is_signed(*ty) && v.spec_int()
                == self.target.spec_min_value(*ty)),
    {
        if !ty.is_integer() || !v.is_integer() || !self.target.is_signed(ty) {
            return false;
        }
        let min = self.target.min_value(ty).unwrap();
        v.to_i128() == min as i128
    }

    /// 6.3.8, 6.3.9 The order of two integer constants; `None` for floating ones.
    pub fn compare(&self, lhs: Value, rhs: Value) -> (r: Option<Ordering>)
        ensures
            r == if lhs.spec_is_integer() && rhs.spec_is_integer() {
                Some(
                    if lhs.spec_int() < rhs.spec_int() {
                        Ordering::Less
                    } else if lhs.spec_int() == rhs.spec_int() {
                        Ordering::Equal
                    } else {
                        Ordering::Greater
                    },
                )
            } else {
                None
            },
    {
        if !lhs.is_integer() || !rhs.is_integer() {
            return None;
        }
        let a = lhs.to_i128();
        let b = rhs.to_i128();
        if a < b {
            Some(Ordering::Less)
        } else if a == b {
            Some(Ordering::Equal)
        } else {
            Some(Ordering::Greater)
        }
    }

    /// The result `-mag` or `mag` in the integer type `ty`.
    fn result(&self, ty: &ResolvedType, neg: bool, mag: u128) -> (d: Diag<Value>)
        requires
            self.target.wf(),
            ty.spec_is_integer(),
        ensures
            d == folded(self.target, *ty, signed_mag(neg, mag)),
    {
        let bits = self.target.bits(ty).unwrap();
        let signed = self.target.is_signed(ty);
        let r = wrap_mag(neg, mag, bits, signed);
        let value = match ty {
            ResolvedType::Long => Value::Long(r as i64),
            ResolvedType::UnsignedLong => Value::UnsignedLong(r as u64),
            ResolvedType::UnsignedInt => Value::UnsignedInt(r as u32),
            _ => Value::Int(r as i32),
        };
        let min = self.target.min_value(ty).unwrap();
        let max = self.target.max_value(ty).unwrap();
        if signed && !mag_in_range(neg, mag, min, max) {
            Diag::err(value, Diagnosis::ArithmeticOverflow)
        } else {
            Diag::ok(value)
        }
    }

    /// 6.3.3.3 Unary minus and `~` on a constant of the integer type `ty`;
    /// the other operators give the value itself. Overflow of a signed type is
    /// reported beside the wrapped value.
    pub fn unary(&self, ty: &ResolvedType, op: UnaryOp, value: Value) -> (d: Diag<Value>)
        requires
            self.target.wf(),
        ensures
            d == spec_unary(self.target, *ty, op, value),
            ty.spec_is_integer() && value.spec_is_integer() ==> d == folded(self.target, *ty, exact_unary(op, value)),
            !(ty.spec_is_integer() && value.spec_is_integer()) ==> d == (Diag {
                res: value,
                diagnosis: Some(Diagnosis::NonIntegerConstantExpression),
            }),
    {
        if !ty.is_integer() || !value.is_integer() {
            return Diag::err(value, Diagnosis::NonIntegerConstantExpression);
        }
        let (neg, mag) = split(value);
        match op {
            UnaryOp::Minus => self.result(ty, !neg && mag != 0, mag),
            UnaryOp::BitNot => self.result(ty, false, (!value.to_u64()) as u128),
            UnaryOp::LogicalNot => self.result(ty, false, if mag == 0 { 1 } else { 0 }),
            _ => self.result(ty, neg, mag),
        }
    }

    /// 6.3.5 to 6.3.14 A binary operator on constants of the integer type
    /// `ty`. Overflow of a signed type is reported beside the wrapped value;
    /// division by zero is reported and gives 0.
    pub fn binary(&self, ty: &ResolvedType, op: BinaryOp, lhs: Value, rhs: Value) -> (d: Diag<Value>)
        requires
            self.target.wf(),
        ensures
            d == spec_binary(self.target, *ty, op, lhs, rhs),
            ty.spec_is_integer() && lhs.spec_is_integer() && rhs.spec_is_integer() && !((op == BinaryOp::Div
                || op == BinaryOp::Mod) && rhs.spec_int() == 0) ==> d == folded(
                self.target,
                *ty,
                exact_binary(op, lhs, rhs, self.target.spec_int_bits(*ty)),
            ),
            ty.spec_is_integer() && lhs.spec_is_integer() && rhs.spec_is_integer() && op == BinaryOp::Div
                && rhs.spec_int() == 0 ==> d == (Diag {
                res: value_of(*ty, 0),
                diagnosis: Some(Diagnosis::DivisionByZero),
            }),
            ty.spec_is_integer() && lhs.spec_is_integer() && rhs.spec_is_integer() && op == BinaryOp::Mod
                && rhs.spec_int() == 0 ==> d == (Diag {
                res: value_of(*ty, 0),
                diagnosis: Some(Diagnosis::ModuloByZero),
            }),
            !(ty.spec_is_integer() && lhs.spec_is_integer() && rhs.spec_is_integer()) ==> d == (Diag {
                res: lhs,
                diagnosis: Some(Diagnosis::NonIntegerConstantExpression),
            }),
    {
        if !ty.is_integer() || !lhs.is_integer() || !rhs.is_integer() {
            return Diag::err(lhs, Diagnosis::NonIntegerConstantExpression);
        }
        proof {
            lemma2_to64();
        }
        let bits = self.target.bits(ty).unwrap();
        let a = lhs.to_i128();
        let b = rhs.to_i128();
        let (an, am) = split(lhs);
        let (bn, bm) = split(rhs);
        let ghost e = exact_binary(op, lhs, rhs, bits as nat);
        match op {
            BinaryOp::Add => {
                let s = a + b;
                if s < 0 {
                    self.result(ty, true, (0 - s) as u128)
                } else {
                    self.result(ty, false, s as u128)
                }
            },
            BinaryOp::Sub => {
                let s = a - b;
                if s < 0 {
                    self.result(ty, true, (0 - s) as u128)
                } else {
                    self.result(ty, false, s as u128)
                }
            },
            BinaryOp::Mul => {
                proof {
                    assert(am * bm < 0x1_0000_0000_0000_0000_0000_0000_0000_0000) by (nonlinear_arith)
                        requires
                            am < 0x1_0000_0000_0000_0000,
                            bm < 0x1_0000_0000_0000_0000,
                    ;
                    assert(signed_mag(an != bn, (am * bm) as u128) == a * b) by (nonlinear_arith)
                        requires
                            signed_mag(an, am) == a,
                            signed_mag(bn, bm) == b,
                            am * bm < 0x1_0000_0000_0000_0000_0000_0000_0000_0000,
                    ;
                }
                self.result(ty, an != bn, am * bm)
            },
            BinaryOp::Div => {
                if bm == 0 {
                    return Diag::err(self.result(ty, false, 0).res, Diagnosis::DivisionByZero);
                }
                let q = am / bm;
                self.result(ty, an != bn, q)
            },
            BinaryOp::Mod => {
                if bm == 0 {
                    return Diag::err(self.result(ty, false, 0).res, Diagnosis::ModuloByZero);
                }
                let q = am / bm;
                let r = am % bm;
                proof {
                    assert(am == bm * q + r) by (nonlinear_arith)
                        requires
                            q == am / bm,
                            r == am % bm,
                            bm > 0,
                    ;
                    assert(trunc_rem(a as int, b as int) == signed_mag(an, r)) by (nonlinear_arith)
                        requires
                            signed_mag(an, am) == a,
                            signed_mag(bn, bm) == b,
                            am == bm * q + r,
                            q == abs(a as int) / abs(b as int),
                            bm > 0,
                    ;
                }
                self.result(ty, an, r)
            },
            BinaryOp::Left => {
                if b < 0 || b >= bits as i128 {
                    return self.result(ty, false, 0);
                }
                let p = pow2_u128(b as u32);
                proof {
                    assert(am * p < 0x1_0000_0000_0000_0000_0000_0000_0000_0000) by (nonlinear_arith)
                        requires
                            am < 0x1_0000_0000_0000_0000,
                            p <= 0x1_0000_0000_0000_0000,
                    ;
                    assert(signed_mag(an, (am * p) as u128) == a * p) by (nonlinear_arith)
                        requires
                            signed_mag(an, am) == a,
                            am * p < 0x1_0000_0000_0000_0000_0000_0000_0000_0000,
                    ;
                }
                self.result(ty, an, am * p)
            },
            BinaryOp::Right => {
                if b < 0 || b >= bits as i128 {
                    return self.result(ty, an && am != 0, if an && am != 0 { 1 } else { 0 });
                }
                let p = pow2_u128(b as u32);
                if !an {
                    self.result(ty, false, am / p)
                } else {
                    let t = am + p - 1;
                    let q = t / p;
                    let rr = t % p;
                    proof {
                        assert(t == p * q + rr) by (nonlinear_arith)
                            requires
                                q == t / p,
                                rr == t % p,
                                p > 0,
                        ;
                        assert(-(am as int) == p * (-(q as int)) + (p - 1 - rr)) by (nonlinear_arith)
                            requires
                                t == p * q + rr,
                                t == am + p - 1,
                        ;
                        lemma_fundamental_div_mod_converse(-(am as int), p as int, -(q as int), (p - 1 - rr) as int);
                    }
                    self.result(ty, q != 0, q)
                }
            },
            BinaryOp::BitAnd => self.result(ty, false, (lhs.to_u64() & rhs.to_u64()) as u128),
            BinaryOp::BitOr => self.result(ty, false, (lhs.to_u64() | rhs.to_u64()) as u128),
            BinaryOp::BitXor => self.result(ty, false, (lhs.to_u64() ^ rhs.to_u64()) as u128),
            BinaryOp::Lower => self.result(ty, false, if a < b { 1 } else { 0 }),
            BinaryOp::Greater => self.result(ty, false, if a > b { 1 } else { 0 }),
            BinaryOp::LowerEq => self.result(ty, false, if a <= b { 1 } else { 0 }),
            BinaryOp::GreaterEq => self.result(ty, false, if a >= b { 1 } else { 0 }),
            BinaryOp::Eq => self.result(ty, false, if a == b { 1 } else { 0 }),
            BinaryOp::Neq => self.result(ty, false, if a != b { 1 } else { 0 }),
            BinaryOp::LogicalAnd => self.result(ty, false, if a != 0 && b != 0 { 1 } else { 0 }),
            BinaryOp::LogicalOr => self.result(ty, false, if a != 0 || b != 0 { 1 } else { 0 }),
        }
    }
}

} // verus!
