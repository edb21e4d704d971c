//! What each kind of value is rendered as, stated over all values.

use vstd::prelude::*;

use crate::labeled_formatter::{
    emit_malformed, emit_text, first_shot_header_text, list_text, metadata_line, qir_type_of,
    record_text, rendered_text, result_array_text, result_bit, user_field,
};
use crate::text::{decimal_digits, digit_char, int_text, is_first_index};
use crate::value::{
    float_exponent, float_is_integral, float_is_nan, float_is_zero, float_mantissa, float_text,
    scalar_text, FloatValue, QShotValType, QsysShotItemValue,
};

verus! {

proof fn lemma_type_literals()
    ensures
        "BOOL"@ != "INT"@,
        "BOOL"@ != "UINT"@,
        "BOOL"@ != "FLOAT"@,
        "BOOL"@ != "RESULT_ARRAY"@,
        "RESULT_ARRAY"@ != "INT"@,
        "RESULT_ARRAY"@ != "UINT"@,
        "RESULT_ARRAY"@ != "FLOAT"@,
        "RESULT_ARRAY"@ != "BOOL"@,
        "RESULT_ARRAY"@ != "RESULT"@,
        "QIRARRAY"@ != "INT"@,
        "QIRARRAY"@ != "UINT"@,
        "QIRARRAY"@ != "FLOAT"@,
        "QIRARRAY"@ != "BOOL"@,
        "QIRARRAY"@ != "RESULT"@,
        "QIRARRAY"@ != "RESULT_ARRAY"@,
        "ARRAY"@ != "RESULT_ARRAY"@,
        "ARRAY"@ != "BOOL"@,
{
    reveal_strlit("BOOL");
    reveal_strlit("INT");
    reveal_strlit("UINT");
    reveal_strlit("FLOAT");
    reveal_strlit("RESULT");
    reveal_strlit("RESULT_ARRAY");
    reveal_strlit("QIRARRAY");
    reveal_strlit("ARRAY");
    assert("BOOL"@.len() != "INT"@.len());
    assert("BOOL"@[0] != "UINT"@[0]);
    assert("BOOL"@.len() != "FLOAT"@.len());
    assert("BOOL"@.len() != "RESULT_ARRAY"@.len());
    assert("RESULT_ARRAY"@.len() != "INT"@.len());
    assert("RESULT_ARRAY"@.len() != "UINT"@.len());
    assert("RESULT_ARRAY"@.len() != "FLOAT"@.len());
    assert("RESULT_ARRAY"@.len() != "RESULT"@.len());
    assert("QIRARRAY"@.len() != "INT"@.len());
    assert("QIRARRAY"@.len() != "UINT"@.len());
    assert("QIRARRAY"@.len() != "FLOAT"@.len());
    assert("QIRARRAY"@.len() != "BOOL"@.len());
    assert("QIRARRAY"@.len() != "RESULT"@.len());
    assert("QIRARRAY"@.len() != "RESULT_ARRAY"@.len());
    assert("ARRAY"@.len() != "RESULT_ARRAY"@.len());
    assert("ARRAY"@.len() != "BOOL"@.len());
}

/// A tagged value of raw type `BOOL` is written as one `BOOL` record whose
/// text is `true` or `false`: a boolean as itself, an integer as whether it is
/// non-zero, a float as whether it is not a zero (a NaN is `true`), a list as
/// whether it has elements.
pub proof fn law_bool_records(tag: Seq<char>, val: QsysShotItemValue)
    requires
        !(val is Invalid),
    ensures
        emit_text("BOOL"@, Some(tag), val) == record_text(
            "BOOL"@,
            if match val {
                QsysShotItemValue::Scalar(QShotValType::Bool(b)) => b,
                QsysShotItemValue::Scalar(QShotValType::Int(i)) => i != 0,
                QsysShotItemValue::Scalar(QShotValType::Float(f)) => f.bits
                    & 0x7fff_ffff_ffff_ffffu64 != 0,
                QsysShotItemValue::List(vs) => vs@.len() > 0,
                QsysShotItemValue::Invalid => false,
            } {
                "true"@
            } else {
                "false"@
            },
            tag,
        ),
        !emit_malformed("BOOL"@, val),
{
    lemma_type_literals();
    assert(qir_type_of("BOOL"@) == Some("BOOL"@));
}

/// A present metadata attribute is reported with its value, an absent one
/// with the default, for each of the three keys of the first shot's header.
pub proof fn law_metadata_reports_attributes(attributes: Map<Seq<char>, String>)
    ensures
        ({
            let line = |k: Seq<char>, d: Seq<char>|
                "METADATA\t"@ + k + "\t"@ + (if attributes.contains_key(k) {
                    attributes[k]@
                } else {
                    d
                }) + "\n"@;
            first_shot_header_text(attributes) == "START\n"@ + "METADATA\tentry_point\n"@ + line(
                "qir_profiles"@,
                "base_profile"@,
            ) + line("required_num_qubits"@, "0"@) + line("required_num_results"@, "0"@)
        }),
{
}

/// Setting an attribute makes its metadata line report the value set, and
/// removing it makes the line report the default, whatever the other attributes.
pub proof fn law_metadata_follows_attribute(
    attributes: Map<Seq<char>, String>,
    key: Seq<char>,
    default: Seq<char>,
    v: String,
)
    ensures
        metadata_line(attributes.insert(key, v), key, default) == "METADATA\t"@ + key + "\t"@ + v@
            + "\n"@,
        metadata_line(attributes.remove(key), key, default) == "METADATA\t"@ + key + "\t"@ + default
            + "\n"@,
{
}

/// Whether a float is a NaN, a zero, or a whole number does not depend on its sign.
pub proof fn law_float_classes_ignore_sign(bits: u64)
    ensures
        float_is_integral(bits) == float_is_integral(bits & 0x7fff_ffff_ffff_ffffu64),
        float_is_nan(bits) == float_is_nan(bits & 0x7fff_ffff_ffff_ffffu64),
        float_is_zero(bits) == float_is_zero(bits & 0x7fff_ffff_ffff_ffffu64),
{
    let c = bits & 0x7fff_ffff_ffff_ffffu64;
    assert((c >> 52u64) & 0x7ffu64 == (bits >> 52u64) & 0x7ffu64) by (bit_vector)
        requires
            c == bits & 0x7fff_ffff_ffff_ffffu64,
    ;
    assert(c & 0xf_ffff_ffff_ffffu64 == bits & 0xf_ffff_ffff_ffffu64) by (bit_vector)
        requires
            c == bits & 0x7fff_ffff_ffff_ffffu64,
    ;
    assert(c & 0x7fff_ffff_ffff_ffffu64 == bits & 0x7fff_ffff_ffff_ffffu64) by (bit_vector)
        requires
            c == bits & 0x7fff_ffff_ffff_ffffu64,
    ;
    assert(float_exponent(c) == float_exponent(bits));
    assert(float_mantissa(c) == float_mantissa(bits));
}

/// A non-zero float of magnitude below one has a fractional part; a finite
/// float of magnitude at least 2^52 has none; infinities and NaNs are not
/// whole numbers.
pub proof fn law_float_integral_bounds(bits: u64)
    ensures
        float_exponent(bits) < 1023 && !float_is_zero(bits) ==> !float_is_integral(bits),
        1075 <= float_exponent(bits) < 0x7ff ==> float_is_integral(bits),
        float_exponent(bits) == 0x7ff ==> !float_is_integral(bits),
{
    let e = float_exponent(bits);
    let m = float_mantissa(bits);
    assert(e == 0 && m == 0 ==> float_is_zero(bits)) by (bit_vector)
        requires
            e == (bits >> 52u64) & 0x7ffu64,
            m == bits & 0xf_ffff_ffff_ffffu64,
    ;
}

/// A list is a result array exactly when every element is a bit (`true`,
/// `false`, 0 or 1); its text then has one character per element, `1` for
/// `true` or 1 and `0` for `false` or 0.
pub proof fn law_result_array_bits(vs: Seq<QShotValType>)
    ensures
        result_array_text(vs) is Some <==> forall|i: int|
            0 <= i < vs.len() ==> #[trigger] vs[i] == QShotValType::Bool(true) || vs[i]
                == QShotValType::Bool(false) || vs[i] == QShotValType::Int(0) || vs[i]
                == QShotValType::Int(1),
        result_array_text(vs) matches Some(t) ==> t.len() == vs.len() && forall|i: int|
            0 <= i < vs.len() ==> #[trigger] t[i] == if vs[i] == QShotValType::Bool(true) || vs[i]
                == QShotValType::Int(1) {
                '1'
            } else {
                '0'
            },
{
    assert forall|i: int| 0 <= i < vs.len() implies ((#[trigger] result_bit(vs[i])) is Some) == (
    vs[i] == QShotValType::Bool(true) || vs[i] == QShotValType::Bool(false) || vs[i]
        == QShotValType::Int(0) || vs[i] == QShotValType::Int(1)) && (result_bit(vs[i]) is Some
        ==> result_bit(vs[i])->0 == if vs[i] == QShotValType::Bool(true) || vs[i]
        == QShotValType::Int(1) {
        '1'
    } else {
        '0'
    }) by {
        match vs[i] {
            QShotValType::Bool(b) => {},
            QShotValType::Int(n) => {},
            QShotValType::Float(f) => {},
        }
    }
    if result_array_text(vs) is Some {
        assert forall|i: int| 0 <= i < vs.len() implies #[trigger] vs[i] == QShotValType::Bool(true)
            || vs[i] == QShotValType::Bool(false) || vs[i] == QShotValType::Int(0) || vs[i]
            == QShotValType::Int(1) by {
            assert(result_bit(vs[i]) is Some);
        }
    } else {
        let i = choose|i: int| 0 <= i < vs.len() && !(#[trigger] result_bit(vs[i]) is Some);
        assert(result_bit(vs[i]) is None);
    }
}

/// A tagged list of bits of raw type `RESULT_ARRAY` is never malformed and is
/// written as one `RESULT_ARRAY` record holding its bits, whatever its length.
pub proof fn law_result_array_records(tag: Seq<char>, vs: Vec<QShotValType>)
    requires
        forall|i: int|
            0 <= i < vs@.len() ==> #[trigger] vs@[i] == QShotValType::Bool(true) || vs@[i]
                == QShotValType::Bool(false) || vs@[i] == QShotValType::Int(0) || vs@[i]
                == QShotValType::Int(1),
    ensures
        !emit_malformed("RESULT_ARRAY"@, QsysShotItemValue::List(vs)),
        emit_text("RESULT_ARRAY"@, Some(tag), QsysShotItemValue::List(vs)) == record_text(
            "RESULT_ARRAY"@,
            Seq::new(
                vs@.len(),
                |i: int|
                    if vs@[i] == QShotValType::Bool(true) || vs@[i] == QShotValType::Int(1) {
                        '1'
                    } else {
                        '0'
                    },
            ),
            tag,
        ),
{
    lemma_type_literals();
    law_result_array_bits(vs@);
    assert(qir_type_of("RESULT_ARRAY"@) == Some("RESULT_ARRAY"@));
    let t = result_array_text(vs@)->0;
    assert(t =~= Seq::new(
        vs@.len(),
        |i: int|
            if vs@[i] == QShotValType::Bool(true) || vs@[i] == QShotValType::Int(1) {
                '1'
            } else {
                '0'
            },
    ));
}

/// A list that keeps its own text is written in square brackets whatever its
/// length: `[`, the texts of its elements separated by `, `, then `]`.
pub proof fn law_list_in_brackets(q: Seq<char>, vs: Vec<QShotValType>)
    requires
        q != "RESULT_ARRAY"@,
        q != "BOOL"@,
    ensures
        rendered_text(q, QsysShotItemValue::List(vs)) matches Some(t) && t.len() >= 2 && t[0]
            == '[' && t[t.len() - 1] == ']' && t.subrange(1, t.len() - 1) == list_text(vs@),
{
    reveal_strlit("[");
    reveal_strlit("]");
    let t = "["@ + list_text(vs@) + "]"@;
    assert(t.subrange(1, t.len() - 1) =~= list_text(vs@));
}

/// The texts of a list's elements: one element is its own text; each further
/// element adds `, ` and its text.
pub proof fn law_list_text_elements(vs: Seq<QShotValType>, x: QShotValType)
    ensures
        list_text(seq![x]) == scalar_text(x),
        vs.len() > 0 ==> list_text(vs.push(x)) == list_text(vs) + ", "@ + scalar_text(x),
        list_text(Seq::<QShotValType>::empty()) == Seq::<char>::empty(),
{
    assert(seq![x].len() == 1);
    assert(seq![x][0] == x);
    assert(vs.push(x).drop_last() =~= vs);
    assert(vs.push(x).last() == x);
}

/// A tagged list of raw type `QIRARRAY` is one `ARRAY` record with the list in
/// square brackets, even when it has a single element.
pub proof fn law_array_records(tag: Seq<char>, vs: Vec<QShotValType>)
    ensures
        emit_text("QIRARRAY"@, Some(tag), QsysShotItemValue::List(vs)) == record_text(
            "ARRAY"@,
            "["@ + list_text(vs@) + "]"@,
            tag,
        ),
        !emit_malformed("QIRARRAY"@, QsysShotItemValue::List(vs)),
{
    lemma_type_literals();
    assert(qir_type_of("QIRARRAY"@) == Some("ARRAY"@));
}

/// The number that a string of decimal digits denotes.
pub open spec fn decimal_value(s: Seq<char>) -> int
    decreases s.len(),
{
    if s.len() == 0 {
        0
    } else {
        decimal_value(s.drop_last()) * 10 + (s.last() as int - 48)
    }
}

/// The decimal digits of a natural number are digits, start with `0` only
/// for zero itself, and denote that number.
pub proof fn law_decimal_digits_denote(n: nat)
    ensures
        forall|i: int|
            0 <= i < decimal_digits(n).len() ==> '0' <= #[trigger] decimal_digits(n)[i] <= '9',
        decimal_digits(n).len() > 0,
        decimal_digits(n)[0] == '0' ==> n == 0,
        decimal_value(decimal_digits(n)) == n,
    decreases n,
{
    if n >= 10 {
        law_decimal_digits_denote(n / 10);
        let d = decimal_digits(n);
        assert(d.drop_last() == decimal_digits(n / 10));
        assert(d[0] == decimal_digits(n / 10)[0]);
        assert(n / 10 > 0);
        assert(d.last() == digit_char((n % 10) as int));
        assert(digit_char((n % 10) as int) as int == n % 10 + 48);
        assert((n / 10) * 10 + n % 10 == n);
        assert(decimal_value(d) == decimal_value(d.drop_last()) * 10 + (d.last() as int - 48));
        assert(decimal_value(d.drop_last()) == n / 10);
    } else {
        assert(decimal_digits(n) == seq![digit_char(n as int)]);
        assert(digit_char(n as int) as int == n + 48);
        assert(decimal_digits(n).drop_last() =~= Seq::<char>::empty());
        assert(decimal_value(Seq::<char>::empty()) == 0);
        assert(decimal_digits(n).last() == digit_char(n as int));
    }
}

/// The text of an integer is `-` before the digits of its magnitude when it
/// is negative, else the digits of the integer itself.
pub proof fn law_int_text_denotes(i: int)
    ensures
        i < 0 ==> int_text(i)[0] == '-' && decimal_value(int_text(i).skip(1)) == -i,
        i >= 0 ==> decimal_value(int_text(i)) == i,
        forall|k: int| (i < 0 ==> 1 <= k) && (i >= 0 ==> 0 <= k) && k < int_text(i).len() ==> '0'
            <= #[trigger] int_text(i)[k] <= '9',
{
    if i < 0 {
        law_decimal_digits_denote((-i) as nat);
        assert(int_text(i).skip(1) =~= decimal_digits((-i) as nat));
        assert forall|k: int| 1 <= k < int_text(i).len() implies '0' <= #[trigger] int_text(i)[k]
            <= '9' by {
            assert(int_text(i)[k] == decimal_digits((-i) as nat)[k - 1]);
        }
    } else {
        law_decimal_digits_denote(i as nat);
    }
}

/// The own text of a scalar: `True` or `False` for a boolean, the decimal
/// text of an integer, and for a float `nan` when it is a NaN, its display
/// followed by `.0` when it is a finite whole number, else its display.
pub proof fn law_scalar_texts(b: bool, i: i64, f: FloatValue)
    ensures
        scalar_text(QShotValType::Bool(b)) == if b {
            "True"@
        } else {
            "False"@
        },
        scalar_text(QShotValType::Int(i)) == int_text(i as int),
        scalar_text(QShotValType::Float(f)) == if float_is_nan(f.bits) {
            "nan"@
        } else if float_is_integral(f.bits) {
            f.display@ + ".0"@
        } else {
            f.display@
        },
{
}

/// A tagged scalar of a raw type other than `BOOL` and `RESULT_ARRAY` is
/// written as one record of the type's QIR type (`INT` and `UINT` as `INT`,
/// `FLOAT` as `DOUBLE`, `RESULT` as itself, `QIRARRAY` as `ARRAY`, `QIRTUPLE`
/// as `TUPLE`) holding the scalar's own text, and is never malformed.
pub proof fn law_scalar_records(ftype: Seq<char>, tag: Seq<char>, v: QShotValType)
    requires
        ftype == "INT"@ || ftype == "UINT"@ || ftype == "FLOAT"@ || ftype == "RESULT"@ || ftype
            == "QIRARRAY"@ || ftype == "QIRTUPLE"@,
    ensures
        emit_text(ftype, Some(tag), QsysShotItemValue::Scalar(v)) == "OUTPUT\t"@ + (if ftype
            == "INT"@ || ftype == "UINT"@ {
            "INT"@
        } else if ftype == "FLOAT"@ {
            "DOUBLE"@
        } else if ftype == "RESULT"@ {
            "RESULT"@
        } else if ftype == "QIRARRAY"@ {
            "ARRAY"@
        } else {
            "TUPLE"@
        }) + "\t"@ + scalar_text(v) + "\t"@ + tag + "\n"@,
        !emit_malformed(ftype, QsysShotItemValue::Scalar(v)),
{
    reveal_strlit("INT");
    reveal_strlit("UINT");
    reveal_strlit("FLOAT");
    reveal_strlit("BOOL");
    reveal_strlit("RESULT");
    reveal_strlit("RESULT_ARRAY");
    reveal_strlit("QIRARRAY");
    reveal_strlit("QIRTUPLE");
    reveal_strlit("DOUBLE");
    reveal_strlit("ARRAY");
    reveal_strlit("TUPLE");
    let q = qir_type_of(ftype)->0;
    if ftype == "FLOAT"@ {
        assert(ftype.len() == 5 && "INT"@.len() == 3 && "UINT"@.len() == 4);
        assert(ftype != "INT"@ && ftype != "UINT"@);
    } else if ftype == "RESULT"@ {
        assert(ftype.len() == 6);
        assert(ftype[0] != "UINT"@[0]);
        assert(ftype != "INT"@ && ftype != "UINT"@ && ftype != "FLOAT"@ && ftype != "BOOL"@);
    } else if ftype == "QIRARRAY"@ {
        assert(ftype.len() == 8);
        assert(ftype != "INT"@ && ftype != "UINT"@ && ftype != "FLOAT"@ && ftype != "BOOL"@
            && ftype != "RESULT"@ && ftype != "RESULT_ARRAY"@);
    } else if ftype == "QIRTUPLE"@ {
        assert(ftype.len() == 8);
        assert(ftype[3] != "QIRARRAY"@[3]);
        assert(ftype != "INT"@ && ftype != "UINT"@ && ftype != "FLOAT"@ && ftype != "BOOL"@
            && ftype != "RESULT"@ && ftype != "RESULT_ARRAY"@ && ftype != "QIRARRAY"@);
    }
    assert(q != "RESULT_ARRAY"@ && q != "BOOL"@) by {
        assert("INT"@.len() == 3 && "DOUBLE"@.len() == 6 && "RESULT"@.len() == 6 && "ARRAY"@.len()
            == 5 && "TUPLE"@.len() == 5 && "BOOL"@.len() == 4 && "RESULT_ARRAY"@.len() == 12);
        assert("DOUBLE"@[0] != "RESULT"@[0]);
    }
    assert(emit_text(ftype, Some(tag), QsysShotItemValue::Scalar(v)) =~= "OUTPUT\t"@ + q + "\t"@
        + scalar_text(v) + "\t"@ + tag + "\n"@);
}

/// A name is a user value's name only as `USER:` + a raw type without `:` +
/// `:` + a tag; those are then its raw type and tag.
pub proof fn law_user_field_shape(name: Seq<char>)
    ensures
        user_field(name) matches Some((ftype, tag)) ==> name == "USER:"@ + ftype + seq![':'] + tag
            && forall|i: int| 0 <= i < ftype.len() ==> ftype[i] != ':',
{
    if let Some((ftype, tag)) = user_field(name) {
        let p = "USER:"@.len() as int;
        let rest = name.skip(p);
        let k = choose|k: int| is_first_index(rest, ':', k);
        assert(ftype == rest.take(k) && tag == rest.skip(k + 1));
        assert(rest =~= ftype + seq![':'] + tag);
        assert(name =~= name.take(p) + rest);
    }
}

/// The classes of a binary64 bit pattern, by its exponent field `e` (bits 52
/// to 62) and mantissa field `m` (bits 0 to 51): a NaN has `e` all ones and
/// `m` non-zero; a zero has every bit but the sign clear; a whole number is a
/// zero, or finite with `e` at least 1075, or has `e` from 1023 to 1074 and
/// the lowest 1075 - `e` bits of `m` clear.
pub proof fn law_float_classes(bits: u64)
    ensures
        float_is_nan(bits) == (((bits >> 52u64) & 0x7ffu64) == 0x7ffu64 && (bits
            & 0xf_ffff_ffff_ffffu64) != 0),
        float_is_zero(bits) == (bits & 0x7fff_ffff_ffff_ffffu64 == 0),
        float_is_integral(bits) == ({
            let e = (bits >> 52u64) & 0x7ffu64;
            let m = bits & 0xf_ffff_ffff_ffffu64;
            (e == 0 && m == 0) || (1075 <= e < 0x7ff) || (1023 <= e < 1075 && m & ((1u64 << ((1075
                - e) as u64)) - 1u64) as u64 == 0)
        }),
{
    let e = (bits >> 52u64) & 0x7ffu64;
    assert(e <= 0x7ff) by (bit_vector)
        requires
            e == (bits >> 52u64) & 0x7ffu64,
    ;
}

} // verus!
