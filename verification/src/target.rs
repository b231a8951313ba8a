//! The data model of a target: sizes and alignments of the scalar types,
//! signedness of plain `char`, the types of `size_t` and `ptrdiff_t`, and the
//! integer arithmetic that follows from them.

use vstd::prelude::*;
use vstd::arithmetic::power2::{pow2, lemma2_to64};
use vstd::arithmetic::div_mod::lemma_fundamental_div_mod_converse;

use crate::ast::Value;
use crate::semantic::model::resolved_type::ResolvedType;

verus! {

#[derive(Clone, Copy, Debug, PartialEq, Eq, Structural)]
pub struct Layout {
    pub size: u32,
    pub align: u32,
}

impl Layout {
    pub fn new(size: u32, align: u32) -> (l: Self)
        ensures
            l.size == size,
            l.align == align,
    {
        Layout { size, align }
    }

    /// A size and alignment the layout computations can work with.
    pub open spec fn sane(self) -> bool {
        1 <= self.align <= 0x1000 && self.size <= 0x1000_0000
    }
}

pub struct Target {
    pub name: &'static str,
    pub char: Layout,
    pub short: Layout,
    pub int: Layout,
    pub long: Layout,
    pub float: Layout,
    pub double: Layout,
    pub long_double: Layout,
    pub pointer: Layout,
    pub size_t: ResolvedType,
    pub ptrdiff_t: ResolvedType,
    pub wchar_t: ResolvedType,
    pub char_signed: bool,
}

/// An integral layout is one, two, four or eight bytes wide.
pub open spec fn integral_size(l: Layout) -> bool {
    l.size == 1 || l.size == 2 || l.size == 4 || l.size == 8
}

/// `v` reduced modulo `2^bits` into the range of a `bits`-wide integer,
/// signed (two's complement) or unsigned.
pub open spec fn wrap(v: int, bits: nat, signed: bool) -> int {
    let m = pow2(bits) as int;
    let r = v % m;
    if signed && r >= m / 2 {
        r - m
    } else {
        r
    }
}

impl Target {
    /// The layouts are usable: the integer types are 1, 2, 4 or 8 bytes,
    /// every alignment is positive, and `size_t`/`ptrdiff_t` are integer types.
    pub open spec fn wf(&self) -> bool {
        &&& integral_size(self.char)
        &&& integral_size(self.short)
        &&& integral_size(self.int)
        &&& integral_size(self.long)
        &&& self.char.sane() && self.short.sane() && self.int.sane() && self.long.sane()
        &&& self.float.sane() && self.double.sane() && self.long_double.sane() && self.pointer.sane()
        &&& self.size_t.spec_is_integer()
        &&& self.ptrdiff_t.spec_is_integer()
        &&& self.wchar_t.spec_is_integer()
    }

    pub open spec fn spec_scalar(&self, ty: ResolvedType) -> Option<Layout> {
        match ty {
            ResolvedType::Char | ResolvedType::SignedChar | ResolvedType::UnsignedChar => Some(self.char),
            ResolvedType::Short | ResolvedType::UnsignedShort => Some(self.short),
            ResolvedType::Int | ResolvedType::UnsignedInt => Some(self.int),
            ResolvedType::Long | ResolvedType::UnsignedLong => Some(self.long),
            ResolvedType::Float => Some(self.float),
            ResolvedType::Double => Some(self.double),
            ResolvedType::LongDouble => Some(self.long_double),
            ResolvedType::Array { .. } | ResolvedType::Pointer(_) => Some(self.pointer),
            ResolvedType::Function { .. } => Some(self.pointer),
            ResolvedType::Void | ResolvedType::Tag(_) => None,
        }
    }

    pub open spec fn spec_is_signed(&self, ty: ResolvedType) -> bool {
        match ty {
            ResolvedType::Char => self.char_signed,
            ResolvedType::SignedChar | ResolvedType::Short | ResolvedType::Int | ResolvedType::Long
            | ResolvedType::Float | ResolvedType::Double | ResolvedType::LongDouble => true,
            _ => false,
        }
    }

    /// Width in bits of an integer type.
    pub open spec fn spec_int_bits(&self, ty: ResolvedType) -> nat {
        (self.spec_scalar(ty).unwrap().size * 8) as nat
    }

    pub open spec fn spec_max_value(&self, ty: ResolvedType) -> int {
        let bits = self.spec_int_bits(ty);
        if bits >= 64 {
            if self.spec_is_signed(ty) { i64::MAX as int } else { u64::MAX as int }
        } else if self.spec_is_signed(ty) {
            pow2((bits - 1) as nat) - 1
        } else {
            pow2(bits) - 1
        }
    }

    pub open spec fn spec_min_value(&self, ty: ResolvedType) -> int {
        let bits = self.spec_int_bits(ty);
        if !self.spec_is_signed(ty) {
            0
        } else if bits >= 64 {
            i64::MIN as int
        } else {
            -pow2((bits - 1) as nat)
        }
    }

    /// `value` truncated to the width and signedness of the integer type `ty`.
    pub open spec fn spec_truncate(&self, value: int, ty: ResolvedType) -> int {
        let bits = self.spec_int_bits(ty);
        if bits >= 64 {
            value
        } else {
            wrap(value, bits, self.spec_is_signed(ty))
        }
    }

    /// The constant `val` converted to the integer type `ty`, in the
    /// representation the folder uses for that type.
    pub open spec fn spec_cast(&self, ty: ResolvedType, val: Value) -> Option<Value> {
        if !ty.spec_is_integer() || !val.spec_is_integer() {
            None
        } else {
            let v = self.spec_truncate(val.spec_i64() as int, ty);
            Some(
                match ty {
                    ResolvedType::Long => Value::Long(v as i64),
                    ResolvedType::UnsignedLong => Value::UnsignedLong(v as i64 as u64),
                    ResolvedType::UnsignedInt => Value::UnsignedInt(v as i64 as u64 as u32),
                    _ => Value::Int(v as i64 as i32),
                },
            )
        }
    }

    /// Truncating keeps the low bits of a value (the difference is a
    /// multiple of `2^bits`), and truncating again changes nothing.
    pub proof fn lemma_truncate_low_bits(&self, v: int, ty: ResolvedType)
        requires
            self.wf(),
            ty.spec_is_integer(),
        ensures
            self.spec_int_bits(ty) < 64 ==> (self.spec_truncate(v, ty) - v) % (pow2(self.spec_int_bits(ty)) as int) == 0,
            self.spec_truncate(self.spec_truncate(v, ty), ty) == self.spec_truncate(v, ty),
    {
        let bits = self.spec_int_bits(ty);
        if bits < 64 {
            let m = pow2(bits) as int;
            vstd::arithmetic::power2::lemma_pow2_pos(bits);
            let r = v % m;
            vstd::arithmetic::div_mod::lemma_fundamental_div_mod(v, m);
            vstd::arithmetic::div_mod::lemma_mod_bound(v, m);
            let w = self.spec_truncate(v, ty);
            let q = v / m;
            if w == r {
                assert(w - v == (-q) * m) by (nonlinear_arith)
                    requires
                        v == m * q + r,
                        w == r,
                ;
                vstd::arithmetic::div_mod::lemma_mod_multiples_basic(-q, m);
                vstd::arithmetic::div_mod::lemma_small_mod(r as nat, m as nat);
            } else {
                assert(w == r - m);
                assert(w - v == (-q - 1) * m) by (nonlinear_arith)
                    requires
                        v == m * q + r,
                        w == r - m,
                ;
                vstd::arithmetic::div_mod::lemma_mod_multiples_basic(-q - 1, m);
                lemma_fundamental_div_mod_converse(w, m, -1, r);
            }
            assert(w % m == r);
        }
    }

    /// The i386 data model: 4-byte `int`, `long` and pointers, signed
    /// `char`, `size_t` an `unsigned int` and `ptrdiff_t` an `int`.
    pub open spec fn is_i386(&self) -> bool {
        &&& self.char == Layout { size: 1, align: 1 }
        &&& self.short == Layout { size: 2, align: 2 }
        &&& self.int == Layout { size: 4, align: 4 }
        &&& self.long == Layout { size: 4, align: 4 }
        &&& self.float == Layout { size: 4, align: 4 }
        &&& self.double == Layout { size: 8, align: 4 }
        &&& self.long_double == Layout { size: 12, align: 4 }
        &&& self.pointer == Layout { size: 4, align: 4 }
        &&& self.size_t == ResolvedType::UnsignedInt
        &&& self.ptrdiff_t == ResolvedType::Int
        &&& self.wchar_t == ResolvedType::Int
        &&& self.char_signed
    }

    /// The x86_64 data model: 4-byte `int`, 8-byte `long` and pointers,
    /// signed `char`, `size_t` an `unsigned long` and `ptrdiff_t` a `long`.
    pub open spec fn is_x86_64(&self) -> bool {
        &&& self.char == Layout { size: 1, align: 1 }
        &&& self.short == Layout { size: 2, align: 2 }
        &&& self.int == Layout { size: 4, align: 4 }
        &&& self.long == Layout { size: 8, align: 8 }
        &&& self.float == Layout { size: 4, align: 4 }
        &&& self.double == Layout { size: 8, align: 8 }
        &&& self.long_double == Layout { size: 16, align: 16 }
        &&& self.pointer == Layout { size: 8, align: 8 }
        &&& self.size_t == ResolvedType::UnsignedLong
        &&& self.ptrdiff_t == ResolvedType::Long
        &&& self.wchar_t == ResolvedType::Int
        &&& self.char_signed
    }

    pub fn i386() -> (t: Target)
        ensures
            t.wf(),
            t.is_i386(),
    {
        Target {
            name: "i386",
            char: Layout::new(1, 1),
            short: Layout::new(2, 2),
            int: Layout::new(4, 4),
            long: Layout::new(4, 4),
            float: Layout::new(4, 4),
            double: Layout::new(8, 4),
            long_double: Layout::new(12, 4),
            pointer: Layout::new(4, 4),
            size_t: ResolvedType::UnsignedInt,
            ptrdiff_t: ResolvedType::Int,
            wchar_t: ResolvedType::Int,
            char_signed: true,
        }
    }

    pub fn x86_64() -> (t: Target)
        ensures
            t.wf(),
            t.is_x86_64(),
    {
        Target {
            name: "x86_64",
            char: Layout::new(1, 1),
            short: Layout::new(2, 2),
            int: Layout::new(4, 4),
            long: Layout::new(8, 8),
            float: Layout::new(4, 4),
            double: Layout::new(8, 8),
            long_double: Layout::new(16, 16),
            pointer: Layout::new(8, 8),
            size_t: ResolvedType::UnsignedLong,
            ptrdiff_t: ResolvedType::Long,
            wchar_t: ResolvedType::Int,
            char_signed: true,
        }
    }

    /// The default target is i386.
    pub fn default_target() -> (t: Target)
        ensures
            t.wf(),
            t.is_i386(),
    {
        Target::i386()
    }

    /// Size in bytes of the type a constant has.
    pub fn value_size(&self, value: Value) -> (s: u64)
        ensures
            s == match value {
                Value::Int(_) | Value::UnsignedInt(_) => self.int.size,
                Value::Long(_) | Value::UnsignedLong(_) => self.long.size,
                Value::Float(_) => self.float.size,
                Value::Double(_) => self.double.size,
                Value::LongDouble(_) => self.long_double.size,
            },
    {
        let l = match value {
            Value::Int(_) | Value::UnsignedInt(_) => self.int,
            Value::Long(_) | Value::UnsignedLong(_) => self.long,
            Value::Float(_) => self.float,
            Value::Double(_) => self.double,
            Value::LongDouble(_) => self.long_double,
        };
        l.size as u64
    }

    pub fn scalar(&self, ty: &ResolvedType) -> (r: Option<Layout>)
        ensures
            r == self.spec_scalar(*ty),
    {
        match ty {
            ResolvedType::Char | ResolvedType::SignedChar | ResolvedType::UnsignedChar => Some(self.char),
            ResolvedType::Short | ResolvedType::UnsignedShort => Some(self.short),
            ResolvedType::Int | ResolvedType::UnsignedInt => Some(self.int),
            ResolvedType::Long | ResolvedType::UnsignedLong => Some(self.long),
            ResolvedType::Float => Some(self.float),
            ResolvedType::Double => Some(self.double),
            ResolvedType::LongDouble => Some(self.long_double),
            ResolvedType::Array { .. } | ResolvedType::Pointer(_) => Some(self.pointer),
            ResolvedType::Function { .. } => Some(self.pointer),
            ResolvedType::Void | ResolvedType::Tag(_) => None,
        }
    }

    pub fn is_integral(&self, ty: &ResolvedType) -> (b: bool)
        ensures
            b == ty.spec_is_integer(),
    {
        ty.is_integer()
    }

    pub fn is_signed(&self, ty: &ResolvedType) -> (b: bool)
        ensures
            b == self.spec_is_signed(*ty),
    {
        match ty {
            ResolvedType::Char => self.char_signed,
            ResolvedType::SignedChar | ResolvedType::Short | ResolvedType::Int | ResolvedType::Long
            | ResolvedType::Float | ResolvedType::Double | ResolvedType::LongDouble => true,
            _ => false,
        }
    }

    pub fn bits(&self, ty: &ResolvedType) -> (r: Option<u32>)
        requires
            self.wf(),
        ensures
            r == match self.spec_scalar(*ty) {
                Some(l) => Some((l.size * 8) as u32),
                None => None::<u32>,
            },
    {
        match self.scalar(ty) {
            Some(l) => Some(l.size * 8),
            None => None,
        }
    }

    /// The largest value of an integer type, `None` for any other type.
    pub fn max_value(&self, ty: &ResolvedType) -> (r: Option<u64>)
        requires
            self.wf(),
        ensures
            r == (if ty.spec_is_integer() { Some(self.spec_max_value(*ty) as u64) } else { None::<u64> }),
            ty.spec_is_integer() ==> 0 < self.spec_max_value(*ty) <= u64::MAX,
    {
        if !self.is_integral(ty) {
            return None;
        }
        let bits = self.bits(ty).unwrap();
        let signed = self.is_signed(ty);
        proof {
            lemma2_to64();
        }
        if bits >= 64 {
            return Some(if signed { i64::MAX as u64 } else { u64::MAX });
        }
        Some(if signed { modulus(bits) / 2 - 1 } else { modulus(bits) - 1 })
    }

    /// The smallest value of an integer type, `None` for any other type.
    pub fn min_value(&self, ty: &ResolvedType) -> (r: Option<i64>)
        requires
            self.wf(),
        ensures
            r == (if ty.spec_is_integer() { Some(self.spec_min_value(*ty) as i64) } else { None::<i64> }),
            ty.spec_is_integer() ==> i64::MIN <= self.spec_min_value(*ty) <= 0,
    {
        if !self.is_integral(ty) {
            return None;
        }
        proof {
            lemma2_to64();
        }
        if !self.is_signed(ty) {
            return Some(0);
        }
        let bits = self.bits(ty).unwrap();
        if bits >= 64 {
            return Some(i64::MIN);
        }
        Some(-((modulus(bits) / 2) as i64))
    }

    /// `value` truncated to the integer type `ty`, `None` when `ty` is not an integer type.
    pub fn truncate(&self, value: i64, ty: &ResolvedType) -> (r: Option<i64>)
        requires
            self.wf(),
        ensures
            r == (if ty.spec_is_integer() { Some(self.spec_truncate(value as int, *ty) as i64) } else { None::<i64> }),
            ty.spec_is_integer() && self.spec_int_bits(*ty) < 64 ==> self.spec_min_value(*ty)
                <= self.spec_truncate(value as int, *ty) <= self.spec_max_value(*ty),
    {
        if !self.is_integral(ty) {
            return None;
        }
        let bits = self.bits(ty).unwrap();
        let signed = self.is_signed(ty);
        proof {
            lemma2_to64();
        }
        if bits >= 64 {
            return Some(value);
        }
        let r = wrap_to(value, bits, signed);
        Some(r)
    }

    /// The constant `val` converted to the integer type `ty`; `None` when
    /// either is not an integer.
    pub fn cast(&self, ty: &ResolvedType, val: Value) -> (r: Option<Value>)
        requires
            self.wf(),
        ensures
            r == self.spec_cast(*ty, val),
    {
        if !self.is_integral(ty) || !val.is_integer() {
            return None;
        }
        let v = self.truncate(val.to_i64(), ty).unwrap();
        Some(
            match ty {
                ResolvedType::Long => Value::Long(v),
                ResolvedType::UnsignedLong => Value::UnsignedLong(v as u64),
                ResolvedType::UnsignedInt => Value::UnsignedInt(v as u64 as u32),
                _ => Value::Int(v as i32),
            },
        )
    }
}

/// `2^bits` for the widths below 64 that integer types may have.
pub fn modulus(bits: u32) -> (m: u64)
    requires
        bits == 8 || bits == 16 || bits == 32,
    ensures
        m == pow2(bits as nat),
        256 <= m <= 0x1_0000_0000,
        m % 2 == 0,
{
    proof {
        lemma2_to64();
    }
    if bits == 8 {
        256
    } else if bits == 16 {
        65536
    } else {
        0x1_0000_0000
    }
}

/// `value` reduced into the range of a `bits`-wide integer.
fn wrap_to(value: i64, bits: u32, signed: bool) -> (r: i64)
    requires
        bits == 8 || bits == 16 || bits == 32,
    ensures
        r as int == wrap(value as int, bits as nat, signed),
        signed ==> -(pow2(bits as nat) as int / 2) <= r < pow2(bits as nat) as int / 2,
        !signed ==> 0 <= r < pow2(bits as nat),
{
    let m = modulus(bits);
    let rem: u64 = if value >= 0 {
        let q = (value as u64) / m;
        let rr = (value as u64) % m;
        proof {
            assert(value as int == q as int * m as int + rr as int) by (nonlinear_arith)
                requires
                    value >= 0,
                    q == (value as u64) / m,
                    rr == (value as u64) % m,
                    m > 0,
            ;
            lemma_fundamental_div_mod_converse(value as int, m as int, q as int, rr as int);
        }
        rr
    } else {
        let n: u64 = (-(value as i128)) as u64;
        let q = n / m;
        let a = n % m;
        proof {
            assert(n as int == q as int * m as int + a as int) by (nonlinear_arith)
                requires
                    q == n / m,
                    a == n % m,
                    m > 0,
            ;
        }
        if a == 0 {
            proof {
                assert(value as int == (-(q as int)) * m as int + 0) by (nonlinear_arith)
                    requires
                        value as int == -(n as int),
                        n as int == q as int * m as int + a as int,
                        a == 0,
                ;
                lemma_fundamental_div_mod_converse(value as int, m as int, -(q as int), 0);
            }
            0
        } else {
            proof {
                assert(value as int == (-(q as int) - 1) * m as int + (m - a) as int) by (nonlinear_arith)
                    requires
                        value as int == -(n as int),
                        n as int == q as int * m as int + a as int,
                ;
                lemma_fundamental_div_mod_converse(value as int, m as int, -(q as int) - 1, (m - a) as int);
            }
            m - a
        }
    };
    assert(rem < m);
    assert(rem as int == value as int % m as int);
    if signed && rem >= m / 2 {
        rem as i64 - m as i64
    } else {
        rem as i64
    }
}

} // verus!
