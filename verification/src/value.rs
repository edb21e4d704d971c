//! The values that a shot holds, and their textual rendering.

use vstd::prelude::*;

use crate::text::{int_text, push_int_text};

verus! {

/// A 64-bit IEEE 754 floating-point number, held as its bit pattern, together
/// with its shortest round-trip decimal display (what Rust's `Display` prints
/// for it, such as `2` for 2.0, `0.5`, `inf` or `NaN`).
#[derive(Clone, Debug)]
pub struct FloatValue {
    pub bits: u64,
    pub display: String,
}

/// The biased exponent field of a binary64 bit pattern.
pub open spec fn float_exponent(bits: u64) -> u64 {
    (bits >> 52u64) & 0x7ffu64
}

/// The mantissa field of a binary64 bit pattern.
pub open spec fn float_mantissa(bits: u64) -> u64 {
    bits & 0xf_ffff_ffff_ffffu64
}

/// The number is a NaN.
pub open spec fn float_is_nan(bits: u64) -> bool {
    float_exponent(bits) == 0x7ff && float_mantissa(bits) != 0
}

/// The number is neither infinite nor NaN.
pub open spec fn float_is_finite(bits: u64) -> bool {
    float_exponent(bits) != 0x7ff
}

/// The number compares equal to zero (it is +0.0 or -0.0).
pub open spec fn float_is_zero(bits: u64) -> bool {
    bits & 0x7fff_ffff_ffff_ffffu64 == 0
}

/// A finite number has no fractional part: it is a zero, its exponent puts
/// every mantissa bit above the binary point, or the mantissa bits below the
/// binary point are all zero.
pub open spec fn float_is_integral(bits: u64) -> bool {
    let e = float_exponent(bits);
    let m = float_mantissa(bits);
    if e == 0 {
        m == 0
    } else if e >= 1075 {
        e != 0x7ff
    } else if e < 1023 {
        false
    } else {
        m & ((1u64 << ((1075 - e) as u64)) - 1u64) as u64 == 0
    }
}

/// The text of a floating-point scalar: `nan` for a NaN, the display with
/// `.0` appended for a finite number without fractional part, else the display.
pub open spec fn float_text(f: FloatValue) -> Seq<char> {
    if float_is_nan(f.bits) {
        "nan"@
    } else if float_is_integral(f.bits) {
        f.display@ + ".0"@
    } else {
        f.display@
    }
}

impl FloatValue {
    /// Whether the number is a NaN.
    pub fn is_nan(&self) -> (r: bool)
        ensures
            r == float_is_nan(self.bits),
    {
        let e: u64 = (self.bits >> 52u64) & 0x7ffu64;
        let m: u64 = self.bits & 0xf_ffff_ffff_ffffu64;
        e == 0x7ff && m != 0
    }

    /// Whether the number compares equal to zero.
    pub fn is_zero(&self) -> (r: bool)
        ensures
            r == float_is_zero(self.bits),
    {
        self.bits & 0x7fff_ffff_ffff_ffffu64 == 0
    }

    /// Whether the number is finite and has no fractional part.
    pub fn is_integral(&self) -> (r: bool)
        ensures
            r == float_is_integral(self.bits),
    {
        let b: u64 = self.bits;
        let e: u64 = (b >> 52u64) & 0x7ffu64;
        let m: u64 = b & 0xf_ffff_ffff_ffffu64;
        assert(e <= 0x7ff) by (bit_vector)
            requires e == (b >> 52u64) & 0x7ffu64;
        if e == 0 {
            m == 0
        } else if e >= 1075 {
            e != 0x7ff
        } else if e < 1023 {
            false
        } else {
            let shift: u64 = 1075 - e;
            assert(1u64 <= (1u64 << shift)) by (bit_vector)
                requires shift <= 52u64;
            m & ((1u64 << shift) - 1u64) == 0
        }
    }
}

/// Two numbers compare equal: neither is a NaN, and they have the same bits
/// or both are zeros.
pub open spec fn float_eq(a: u64, b: u64) -> bool {
    !float_is_nan(a) && !float_is_nan(b) && (a == b || (float_is_zero(a) && float_is_zero(b)))
}

impl PartialEq for FloatValue {
    /// Compares the numbers as floating-point values; the display is not compared.
    fn eq(&self, other: &Self) -> (r: bool) {
        if self.is_nan() || other.is_nan() {
            false
        } else {
            self.bits == other.bits || (self.is_zero() && other.is_zero())
        }
    }
}

impl vstd::std_specs::cmp::PartialEqSpecImpl for FloatValue {
    open spec fn obeys_eq_spec() -> bool {
        true
    }

    open spec fn eq_spec(&self, other: &FloatValue) -> bool {
        float_eq(self.bits, other.bits)
    }
}

/// Scalar values in a shot.
#[derive(Clone, Debug, PartialEq)]
pub enum QShotValType {
    Bool(bool),
    Int(i64),
    Float(FloatValue),
}

/// The text of a scalar value.
pub open spec fn scalar_text(v: QShotValType) -> Seq<char> {
    match v {
        QShotValType::Bool(b) => if b { "True"@ } else { "False"@ },
        QShotValType::Int(i) => int_text(i as int),
        QShotValType::Float(f) => float_text(f),
    }
}

impl QShotValType {
    /// Renders the scalar: `True`/`False`, a decimal integer, or a float's text.
    pub fn text(&self) -> (r: String)
        ensures
            r@ == scalar_text(*self),
    {
        let mut out = String::new();
        match self {
            QShotValType::Bool(b) => {
                if *b {
                    out.append("True");
                } else {
                    out.append("False");
                }
            },
            QShotValType::Int(i) => {
                push_int_text(&mut out, *i);
            },
            QShotValType::Float(f) => {
                if f.is_nan() {
                    out.append("nan");
                } else if f.is_integral() {
                    out.append(f.display.as_str());
                    out.append(".0");
                } else {
                    out.append(f.display.as_str());
                }
            },
        }
        out
    }
}

/// A shot item's value. Invalid inputs are retained so the formatter can skip them.
#[derive(Clone, Debug, PartialEq)]
pub enum QsysShotItemValue {
    Scalar(QShotValType),
    List(Vec<QShotValType>),
    Invalid,
}

} // verus!
