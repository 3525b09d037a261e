//! Scalar values, and how they compare: equality within one variant, order between
//! numbers where it is defined.

use vstd::arithmetic::power2::{lemma_pow2_strictly_increases, lemma_pow2_unfold, lemma2_to64, pow2};
use vstd::prelude::*;
use std::cmp::Ordering;

verus! {

/// A scalar stored under a field or tag name.
///
/// `Float` holds the IEEE-754 binary32 bit pattern of the number, as `f32::to_bits` gives it.
#[derive(Debug, Clone)]
pub enum Value {
    String(String),
    Int(i128),
    Float(u32),
    Bool(bool),
    UInt(u128),
    Null,
}

pub open spec fn two_23() -> int {
    0x80_0000
}

/// Sign bit of a binary32 pattern.
pub open spec fn f32_sign(b: u32) -> int {
    b as int / 0x8000_0000
}

/// Biased exponent of a binary32 pattern.
pub open spec fn f32_exponent(b: u32) -> int {
    (b as int / two_23()) % 256
}

pub open spec fn f32_is_nan(b: u32) -> bool {
    f32_exponent(b) == 255 && b as int % two_23() != 0
}

/// A key that orders non-NaN binary32 patterns as the numbers they denote;
/// the two zeros share the key 0.
pub open spec fn f32_order_key(b: u32) -> int {
    if f32_sign(b) == 1 {
        -(b as int % 0x8000_0000)
    } else {
        b as int % 0x8000_0000
    }
}

pub open spec fn f32_eq(a: u32, b: u32) -> bool {
    !f32_is_nan(a) && !f32_is_nan(b) && f32_order_key(a) == f32_order_key(b)
}

/// Position of the highest set bit of a positive number.
pub open spec fn ilog2(n: nat) -> nat
    decreases n,
{
    if n < 2 {
        0
    } else {
        1 + ilog2(n / 2)
    }
}

/// Significand (with its leading one, so within `[2^23, 2^24]`) of `mag` rounded to 24
/// significant bits, to nearest with ties to even.
pub open spec fn rounded_significand(mag: nat) -> int {
    let e = ilog2(mag);
    if e <= 23 {
        (mag * pow2((23 - e) as nat)) as int
    } else {
        let d = pow2((e - 23) as nat) as int;
        let q = mag as int / d;
        let r = mag as int % d;
        let half = d / 2;
        if r > half || (r == half && q % 2 == 1) {
            q + 1
        } else {
            q
        }
    }
}

/// The binary32 pattern of `v as f32`: the nearest representable number, ties to even.
pub open spec fn f32_bits_of_int(v: int) -> u32 {
    if v == 0 {
        0
    } else {
        let mag: nat = if v < 0 { (-v) as nat } else { v as nat };
        let sign: int = if v < 0 { 0x8000_0000 } else { 0 };
        let sig = rounded_significand(mag);
        let e = ilog2(mag) as int;
        let (sig, e) = if sig == 2 * two_23() { (two_23(), e + 1) } else { (sig, e) };
        (sign + (e + 127) * two_23() + (sig - two_23())) as u32
    }
}

pub open spec fn sign_of(d: int) -> Ordering {
    if d < 0 {
        Ordering::Less
    } else if d == 0 {
        Ordering::Equal
    } else {
        Ordering::Greater
    }
}

pub open spec fn f32_order(a: u32, b: u32) -> Option<Ordering> {
    if f32_is_nan(a) || f32_is_nan(b) {
        Option::None
    } else {
        Option::Some(sign_of(f32_order_key(a) - f32_order_key(b)))
    }
}

/// How two values are ordered, where an order between them is defined: two `Int`s, two
/// `UInt`s, two `Float`s that are not NaN, and an `Int` against a `Float`, the `Int`
/// taken as its nearest `f32`. Every other pair has no order.
pub open spec fn value_order(a: Value, b: Value) -> Option<Ordering> {
    match (a, b) {
        (Value::Int(x), Value::Int(y)) => Option::Some(sign_of(x - y)),
        (Value::Int(x), Value::Float(y)) => f32_order(f32_bits_of_int(x as int), y),
        (Value::Float(x), Value::Int(y)) => f32_order(x, f32_bits_of_int(y as int)),
        (Value::Float(x), Value::Float(y)) => f32_order(x, y),
        (Value::UInt(x), Value::UInt(y)) => Option::Some(sign_of(x - y)),
        _ => Option::None,
    }
}

/// Equality of values: the same variant and the same payload, floats compared as numbers
/// (NaN equals nothing, the two zeros are equal).
pub open spec fn value_eq(a: Value, b: Value) -> bool {
    match (a, b) {
        (Value::String(x), Value::String(y)) => x@ == y@,
        (Value::Int(x), Value::Int(y)) => x == y,
        (Value::Float(x), Value::Float(y)) => f32_eq(x, y),
        (Value::Bool(x), Value::Bool(y)) => x == y,
        (Value::UInt(x), Value::UInt(y)) => x == y,
        (Value::Null, Value::Null) => true,
        _ => false,
    }
}

pub open spec fn is_numeric(v: Value) -> bool {
    match v {
        Value::Int(_) | Value::UInt(_) | Value::Float(_) => true,
        _ => false,
    }
}

impl Value {
    /// A copy of this value.
    pub fn copy(&self) -> (r: Value)
        ensures
            r == *self,
    {
        match self {
            Value::String(s) => Value::String(s.clone()),
            Value::Int(x) => Value::Int(*x),
            Value::Float(x) => Value::Float(*x),
            Value::Bool(x) => Value::Bool(*x),
            Value::UInt(x) => Value::UInt(*x),
            Value::Null => Value::Null,
        }
    }

    pub fn is_numeric(&self) -> (r: bool)
        ensures
            r == is_numeric(*self),
    {
        match self {
            Value::Int(_) | Value::UInt(_) | Value::Float(_) => true,
            _ => false,
        }
    }
}

impl PartialEq for Value {
    fn eq(&self, other: &Value) -> (r: bool) {
        values_equal(self, other)
    }
}

impl vstd::std_specs::cmp::PartialEqSpecImpl for Value {
    open spec fn obeys_eq_spec() -> bool {
        true
    }

    open spec fn eq_spec(&self, other: &Value) -> bool {
        value_eq(*self, *other)
    }
}

fn float_is_nan(b: u32) -> (r: bool)
    ensures
        r == f32_is_nan(b),
{
    (b / 0x80_0000) % 256 == 255 && b % 0x80_0000 != 0
}

fn float_order_key(b: u32) -> (r: i64)
    ensures
        r == f32_order_key(b),
{
    if b / 0x8000_0000 == 1 {
        -((b % 0x8000_0000) as i64)
    } else {
        (b % 0x8000_0000) as i64
    }
}

fn float_eq(a: u32, b: u32) -> (r: bool)
    ensures
        r == f32_eq(a, b),
{
    !float_is_nan(a) && !float_is_nan(b) && float_order_key(a) == float_order_key(b)
}

fn float_order(a: u32, b: u32) -> (r: Option<Ordering>)
    ensures
        r == f32_order(a, b),
{
    if float_is_nan(a) || float_is_nan(b) {
        Option::None
    } else {
        let ka = float_order_key(a);
        let kb = float_order_key(b);
        if ka < kb {
            Option::Some(Ordering::Less)
        } else if ka == kb {
            Option::Some(Ordering::Equal)
        } else {
            Option::Some(Ordering::Greater)
        }
    }
}

proof fn lemma_ilog2_bounds(n: nat)
    requires
        n >= 1,
    ensures
        pow2(ilog2(n)) <= n < pow2(ilog2(n) + 1),
    decreases n,
{
    lemma_pow2_unfold(ilog2(n) + 1);
    if n >= 2 {
        lemma_ilog2_bounds(n / 2);
        lemma_pow2_unfold(ilog2(n));
    } else {
        lemma2_to64();
    }
}

proof fn lemma_ilog2_unique(n: nat, e: nat)
    requires
        pow2(e) <= n < pow2(e + 1),
    ensures
        ilog2(n) == e,
{
    lemma_pow2_pos_at(e);
    lemma_ilog2_bounds(n);
    let k = ilog2(n);
    if k < e {
        lemma_pow2_increasing(k + 1, e);
    } else if k > e {
        lemma_pow2_increasing(e + 1, k);
    }
}

proof fn lemma_pow2_pos_at(e: nat)
    ensures
        pow2(e) >= 1,
{
    vstd::arithmetic::power2::lemma_pow2_pos(e);
}

proof fn lemma_pow2_increasing(a: nat, b: nat)
    requires
        a <= b,
    ensures
        pow2(a) <= pow2(b),
{
    if a < b {
        lemma_pow2_strictly_increases(a, b);
    }
}

/// The binary32 pattern of `v as f32`.
pub fn f32_bits_from_int(v: i128) -> (r: u32)
    ensures
        r == f32_bits_of_int(v as int),
{
    if v == 0 {
        return 0;
    }
    let neg = v < 0;
    let mag: u128 = if neg { ((-(v + 1)) as u128) + 1 } else { v as u128 };
    let ghost magn: nat = mag as nat;
    assert(magn == (if v < 0 { (-v) as nat } else { v as nat }));
    let mut e: u32 = 0;
    let mut p: u128 = 1;
    proof {
        lemma2_to64();
    }
    while p <= mag / 2
        invariant
            p as nat == pow2(e as nat),
            1 <= p <= mag,
            e <= 127,
        decreases mag - p,
    {
        proof {
            lemma_pow2_unfold((e + 1) as nat);
            if e == 127 {
                vstd::arithmetic::power2::lemma2_to64_rest();
                lemma_pow2_increasing(64, 127);
                assert(pow2(128) == pow2(64) * pow2(64)) by {
                    vstd::arithmetic::power2::lemma_pow2_adds(64, 64);
                }
                assert(pow2(64) * pow2(64) > 0xffff_ffff_ffff_ffff_ffff_ffff_ffff_ffffu128) by (nonlinear_arith)
                    requires pow2(64) == 0x1_0000_0000_0000_0000nat;
            }
        }
        p = p * 2;
        e = e + 1;
    }
    proof {
        lemma_pow2_unfold((e + 1) as nat);
        lemma_ilog2_unique(magn, e as nat);
    }
    let sig: u128;
    if e <= 23 {
        let m: u128 = 0x80_0000 / p;
        proof {
            vstd::arithmetic::power2::lemma_pow2_adds((23 - e) as nat, e as nat);
            assert(pow2(23) == 0x80_0000) by { lemma2_to64(); }
            vstd::arithmetic::div_mod::lemma_div_by_multiple(pow2((23 - e) as nat) as int, p as int);
            assert(m == pow2((23 - e) as nat));
            lemma_pow2_pos_at((23 - e) as nat);
            assert(mag * m < 2 * p * m) by (nonlinear_arith)
                requires mag < 2 * p, m >= 1;
            assert(p * m == 0x80_0000) by {
                assert(pow2((23 - e) as nat) * pow2(e as nat) == p * m) by (nonlinear_arith)
                    requires m == pow2((23 - e) as nat), p == pow2(e as nat);
            }
            assert(0x80_0000 <= mag * m < 0x100_0000) by (nonlinear_arith)
                requires mag >= p, mag < 2 * p, m >= 1, p * m == 0x80_0000;
        }
        sig = mag * m;
    } else {
        let d: u128 = p / 0x80_0000;
        proof {
            vstd::arithmetic::power2::lemma_pow2_adds((e - 23) as nat, 23);
            assert(pow2(23) == 0x80_0000) by { lemma2_to64(); }
            vstd::arithmetic::div_mod::lemma_div_by_multiple(pow2((e - 23) as nat) as int, 0x80_0000);
            assert(d == pow2((e - 23) as nat));
            lemma_pow2_pos_at((e - 23) as nat);
            assert(mag / d >= 0x80_0000 && mag / d < 0x100_0000) by {
                assert(p == d * 0x80_0000);
                vstd::arithmetic::div_mod::lemma_div_is_ordered(p as int, mag as int, d as int);
                vstd::arithmetic::div_mod::lemma_div_by_multiple(0x80_0000, d as int);
                assert((d * 0x80_0000) / (d as int) == 0x80_0000) by (nonlinear_arith)
                    requires d >= 1;
                assert(mag < d * 0x100_0000) by (nonlinear_arith)
                    requires mag < 2 * p, p == d * 0x80_0000;
                vstd::arithmetic::div_mod::lemma_multiply_divide_lt(mag as int, d as int, 0x100_0000);
            }
        }
        let q: u128 = mag / d;
        let r: u128 = mag % d;
        let half: u128 = d / 2;
        if r > half || (r == half && q % 2 == 1) {
            sig = q + 1;
        } else {
            sig = q;
        }
    }
    assert(sig == rounded_significand(magn));
    assert(0x80_0000 <= sig <= 0x100_0000);
    let (sig, e) = if sig == 0x100_0000 { (0x80_0000u128, e + 1) } else { (sig, e) };
    let sign: u128 = if neg { 0x8000_0000 } else { 0 };
    let bits: u128 = sign + (e as u128 + 127) * 0x80_0000 + (sig - 0x80_0000);
    bits as u32
}

/// How `a` and `b` are ordered, where an order is defined between them.
pub fn value_order_of(a: &Value, b: &Value) -> (r: Option<Ordering>)
    ensures
        r == value_order(*a, *b),
{
    match (a, b) {
        (Value::Int(x), Value::Int(y)) => Option::Some(
            if *x < *y {
                Ordering::Less
            } else if *x == *y {
                Ordering::Equal
            } else {
                Ordering::Greater
            },
        ),
        (Value::Int(x), Value::Float(y)) => float_order(f32_bits_from_int(*x), *y),
        (Value::Float(x), Value::Int(y)) => float_order(*x, f32_bits_from_int(*y)),
        (Value::Float(x), Value::Float(y)) => float_order(*x, *y),
        (Value::UInt(x), Value::UInt(y)) => Option::Some(
            if *x < *y {
                Ordering::Less
            } else if *x == *y {
                Ordering::Equal
            } else {
                Ordering::Greater
            },
        ),
        _ => Option::None,
    }
}

/// Whether `a` and `b` are equal values.
pub fn values_equal(a: &Value, b: &Value) -> (r: bool)
    ensures
        r == value_eq(*a, *b),
{
    match (a, b) {
        (Value::String(x), Value::String(y)) => x.eq(y),
        (Value::Int(x), Value::Int(y)) => *x == *y,
        (Value::Float(x), Value::Float(y)) => float_eq(*x, *y),
        (Value::Bool(x), Value::Bool(y)) => *x == *y,
        (Value::UInt(x), Value::UInt(y)) => *x == *y,
        (Value::Null, Value::Null) => true,
        _ => false,
    }
}

} // verus!
