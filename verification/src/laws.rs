//! Properties of the labeled output that hold for every input.

use vstd::prelude::*;

use crate::labeled_formatter::{
    emit_malformed, emit_text, first_shot_header_text, qir_type_of,
    record_text, rendered_text, results_header_text, results_text, shot_block_text,
    shot_blocks_text, shot_footer_text, shot_malformed, shot_text, user_field, QirLabeledFormatter,
    QsysShot, QsysShotItem,
};
use crate::text::{decimal_digits, digit_char, int_text, is_first_index};
use crate::value::QsysShotItemValue;

verus! {

/// The user values of two shots written one after the other give the text of
/// the first followed by the text of the second, and their malformed counts add up.
pub proof fn law_shot_text_concat(a: Seq<QsysShotItem>, b: Seq<QsysShotItem>)
    ensures
        shot_text(a + b) == shot_text(a) + shot_text(b),
        shot_malformed(a + b) == shot_malformed(a) + shot_malformed(b),
    decreases b.len(),
{
    if b.len() == 0 {
        assert(a + b =~= a);
        assert(shot_text(a) + shot_text(b) =~= shot_text(a));
    } else {
        law_shot_text_concat(a, b.drop_last());
        assert((a + b).drop_last() =~= a + b.drop_last());
        assert((a + b).last() == b.last());
        assert(shot_text(a + b) =~= shot_text(a) + shot_text(b));
    }
}

/// A named value whose name is not a user value's name (`USER:<type>:<tag>`)
/// changes neither the text of a shot nor its malformed count, wherever it stands.
pub proof fn law_non_user_items_ignored(
    a: Seq<QsysShotItem>,
    item: QsysShotItem,
    b: Seq<QsysShotItem>,
)
    requires
        user_field(item.0@) is None,
    ensures
        shot_text(a + seq![item] + b) == shot_text(a + b),
        shot_malformed(a + seq![item] + b) == shot_malformed(a + b),
{
    let single = seq![item];
    assert(single.drop_last() =~= Seq::<QsysShotItem>::empty());
    assert(single.last() == item);
    assert(shot_text(Seq::<QsysShotItem>::empty()) == Seq::<char>::empty());
    assert(shot_malformed(Seq::<QsysShotItem>::empty()) == 0);
    assert(shot_text(single) =~= Seq::<char>::empty());
    assert(shot_malformed(single) == 0);
    law_shot_text_concat(a, single);
    law_shot_text_concat(a + single, b);
    law_shot_text_concat(a, b);
    assert(shot_text(a + single) =~= shot_text(a));
}

/// A value that cannot be rendered for its type adds no text to the output.
pub proof fn law_malformed_values_write_nothing(
    ftype: Seq<char>,
    tag: Option<Seq<char>>,
    val: QsysShotItemValue,
)
    requires
        emit_malformed(ftype, val),
    ensures
        emit_text(ftype, tag, val) == Seq::<char>::empty(),
{
}

/// A value of a raw type that is not reported adds no text and is not malformed.
pub proof fn law_unreported_types_ignored(
    ftype: Seq<char>,
    tag: Option<Seq<char>>,
    val: QsysShotItemValue,
)
    requires
        qir_type_of(ftype) is None,
    ensures
        emit_text(ftype, tag, val) == Seq::<char>::empty(),
        !emit_malformed(ftype, val),
{
}

/// A value without a tag, or an invalid value, adds no text to the output.
pub proof fn law_untagged_or_invalid_write_nothing(
    ftype: Seq<char>,
    tag: Option<Seq<char>>,
    val: QsysShotItemValue,
)
    requires
        tag is None || val is Invalid,
    ensures
        emit_text(ftype, tag, val) == Seq::<char>::empty(),
{
}

/// Every value of raw type `BOOL` is rendered, as `true` or `false`: it is
/// never malformed, and with a tag it adds exactly one `BOOL` record.
pub proof fn law_bool_always_rendered(tag: Seq<char>, val: QsysShotItemValue)
    requires
        !(val is Invalid),
    ensures
        !emit_malformed("BOOL"@, val),
        emit_text("BOOL"@, Some(tag), val) == record_text("BOOL"@, "true"@, tag) || emit_text(
            "BOOL"@,
            Some(tag),
            val,
        ) == record_text("BOOL"@, "false"@, tag),
{
    reveal_strlit("BOOL");
    reveal_strlit("INT");
    reveal_strlit("UINT");
    reveal_strlit("FLOAT");
    reveal_strlit("RESULT_ARRAY");
    assert("BOOL"@.len() == 4 && "INT"@.len() == 3 && "FLOAT"@.len() == 5);
    assert("RESULT_ARRAY"@.len() == 12);
    assert("BOOL"@ != "INT"@);
    assert("BOOL"@[0] != "UINT"@[0]);
    assert("BOOL"@ != "FLOAT"@);
    assert("BOOL"@ != "RESULT_ARRAY"@);
    assert(qir_type_of("BOOL"@) == Some("BOOL"@));
    assert(rendered_text("BOOL"@, val) is Some);
}

/// The labeled output is empty exactly when there are no shots.
pub proof fn law_output_empty_iff_no_shots(
    results: Seq<QsysShot>,
    attributes: Map<Seq<char>, String>,
)
    ensures
        (results_text(results, attributes) == Seq::<char>::empty()) <==> results.len() == 0,
{
    reveal_strlit("HEADER\tschema_id\tlabeled\n");
    if results.len() > 0 {
        assert(results_text(results, attributes).len() > 0);
    }
}

/// One more shot at the end of non-empty results adds exactly one shot block
/// at the end of the output: what was written before stays as it was.
pub proof fn law_output_extends_by_shot(
    results: Seq<QsysShot>,
    shot: QsysShot,
    attributes: Map<Seq<char>, String>,
)
    requires
        results.len() > 0,
    ensures
        results_text(results.push(shot), attributes) == results_text(results, attributes)
            + shot_block_text(shot@),
{
    assert(results.push(shot).skip(1).drop_last() =~= results.skip(1));
    assert(results.push(shot).skip(1).last() == shot);
    assert(results.push(shot)[0] == results[0]);
}

/// The output of non-empty results is the output of the first shot alone,
/// followed by the block of every further shot.
pub proof fn law_output_composes(results: Seq<QsysShot>, attributes: Map<Seq<char>, String>)
    requires
        results.len() > 0,
    ensures
        results_text(results, attributes) == results_text(seq![results[0]], attributes)
            + shot_blocks_text(results.skip(1)),
{
    let first = seq![results[0]];
    assert(first.skip(1) =~= Seq::<QsysShot>::empty());
    assert(shot_blocks_text(first.skip(1)) =~= Seq::<char>::empty());
    assert(results_text(first, attributes) =~= results_text(results, attributes).take(
        results_text(first, attributes).len() as int,
    ));
}

/// The formatter carries no state: any two formatters are the same value, so
/// `new()` and `default()` format every input alike.
pub proof fn law_formatter_carries_no_state(a: QirLabeledFormatter, b: QirLabeledFormatter)
    ensures
        a == b,
{
}

/// The name `USER:<type>:<tag>`, with no `:` in the type, splits back into
/// that type and that tag (the tag may be empty or hold `:`).
pub proof fn law_user_name_splits(ftype: Seq<char>, tag: Seq<char>)
    requires
        forall|i: int| 0 <= i < ftype.len() ==> ftype[i] != ':',
    ensures
        user_field("USER:"@ + ftype + seq![':'] + tag) == Some((ftype, tag)),
{
    let prefix = "USER:"@;
    let name = prefix + ftype + seq![':'] + tag;
    assert(name.take(prefix.len() as int) =~= prefix);
    let rest = name.skip(prefix.len() as int);
    assert(rest =~= ftype + seq![':'] + tag);
    let k = ftype.len() as int;
    assert(is_first_index(rest, ':', k));
    let c = choose|j: int| is_first_index(rest, ':', j);
    assert(c == k) by {
        if c < k {
            assert(rest[c] == ftype[c]);
        } else if c > k {
            assert(rest[k] == ':');
        }
    }
    assert(rest.take(k) =~= ftype);
    assert(rest.skip(k + 1) =~= tag);
}

/// Emitting the values of a shot is emitting each named value in order: one
/// more value at the end appends exactly what emitting it appends (nothing for
/// a name that is not a user value's), and counts it when it is malformed.
pub proof fn law_shot_is_emits_in_order(items: Seq<QsysShotItem>, item: QsysShotItem)
    ensures
        shot_text(items.push(item)) == shot_text(items) + match user_field(item.0@) {
            Some((ftype, tag)) => emit_text(ftype, Some(tag), item.1),
            None => Seq::<char>::empty(),
        },
        shot_malformed(items.push(item)) == shot_malformed(items) + if match user_field(
            item.0@,
        ) {
            Some((ftype, _)) => emit_malformed(ftype, item.1),
            None => false,
        } {
            1int
        } else {
            0int
        },
{
    assert(items.push(item).drop_last() =~= items);
    assert(items.push(item).last() == item);
}

/// The output of non-empty results is the header, then the first shot (its
/// boundary, the metadata, its values, its footer), then each further shot
/// (its boundary, its values, its footer) in order: the metadata appear only
/// in the first shot.
pub proof fn law_output_is_shots_in_order(
    results: Seq<QsysShot>,
    attributes: Map<Seq<char>, String>,
)
    requires
        results.len() > 0,
    ensures
        results_text(results, attributes) == results_header_text() + first_shot_header_text(
            attributes,
        ) + shot_text(results[0]@) + shot_footer_text() + shot_blocks_text(results.skip(1)),
{
    assert(results_text(results, attributes) =~= results_header_text() + first_shot_header_text(
        attributes,
    ) + shot_text(results[0]@) + shot_footer_text() + shot_blocks_text(results.skip(1)));
}

proof fn lemma_blocks_end_with_footer(shots: Seq<QsysShot>)
    requires
        shots.len() > 0,
    ensures
        shot_blocks_text(shots).len() >= shot_footer_text().len(),
        shot_blocks_text(shots).skip(
            shot_blocks_text(shots).len() - shot_footer_text().len(),
        ) == shot_footer_text(),
{
    let t = shot_blocks_text(shots);
    let f = shot_footer_text();
    let last = shot_block_text(shots.last()@);
    assert(t == shot_blocks_text(shots.drop_last()) + last);
    assert(t.skip(t.len() - f.len()) =~= f);
}

/// The output of non-empty results begins with the two header lines, the
/// first shot's boundary and its entry-point line, and ends with a shot footer.
pub proof fn law_output_bounds(results: Seq<QsysShot>, attributes: Map<Seq<char>, String>)
    requires
        results.len() > 0,
    ensures
        ({
            let out = results_text(results, attributes);
            let head = results_header_text() + "START\n"@ + "METADATA\tentry_point\n"@;
            &&& head.len() <= out.len()
            &&& out.take(head.len() as int) == head
            &&& shot_footer_text().len() <= out.len()
            &&& out.skip(out.len() - shot_footer_text().len()) == shot_footer_text()
        }),
{
    law_output_is_shots_in_order(results, attributes);
    let out = results_text(results, attributes);
    let head = results_header_text() + "START\n"@ + "METADATA\tentry_point\n"@;
    let rest = first_shot_header_text(attributes).skip(
        ("START\n"@ + "METADATA\tentry_point\n"@).len() as int,
    ) + shot_text(results[0]@) + shot_footer_text() + shot_blocks_text(results.skip(1));
    assert(first_shot_header_text(attributes) =~= "START\n"@ + "METADATA\tentry_point\n"@
        + first_shot_header_text(attributes).skip(
        ("START\n"@ + "METADATA\tentry_point\n"@).len() as int,
    ));
    assert(out =~= head + rest);
    assert(out.take(head.len() as int) =~= head);
    let f = shot_footer_text();
    if results.len() > 1 {
        lemma_blocks_end_with_footer(results.skip(1));
        let b = shot_blocks_text(results.skip(1));
        assert(out.skip(out.len() - f.len()) =~= b.skip(b.len() - f.len()));
    } else {
        assert(out.skip(out.len() - f.len()) =~= f);
    }
}

pub(crate) proof fn lemma_decimal_digits_shape(n: nat)
    ensures
        decimal_digits(n).len() >= 1,
        (n < 10) == (decimal_digits(n).len() == 1),
        forall|i: int|
            0 <= i < decimal_digits(n).len() ==> 48 <= #[trigger] decimal_digits(n)[i] as int
                <= 57,
    decreases n,
{
    if n >= 10 {
        lemma_decimal_digits_shape(n / 10);
    }
}

/// Distinct natural numbers have distinct decimal digits.
pub proof fn law_decimal_digits_injective(n: nat, m: nat)
    requires
        decimal_digits(n) == decimal_digits(m),
    ensures
        n == m,
    decreases n,
{
    lemma_decimal_digits_shape(n);
    lemma_decimal_digits_shape(m);
    if n < 10 {
        assert(decimal_digits(n)[0] == digit_char(n as int));
        assert(decimal_digits(m)[0] == digit_char(m as int));
    } else {
        let dn = decimal_digits(n);
        assert(dn.drop_last() == decimal_digits(n / 10));
        assert(decimal_digits(m).drop_last() == decimal_digits(m / 10));
        law_decimal_digits_injective(n / 10, m / 10);
        assert(dn.last() == digit_char((n % 10) as int));
        assert(dn.last() == digit_char((m % 10) as int));
    }
}

/// Distinct integers are rendered as distinct texts.
pub proof fn law_int_text_injective(a: int, b: int)
    requires
        int_text(a) == int_text(b),
    ensures
        a == b,
{
    if a < 0 {
        lemma_decimal_digits_shape((-a) as nat);
    }
    if b < 0 {
        lemma_decimal_digits_shape((-b) as nat);
    }
    if a >= 0 {
        lemma_decimal_digits_shape(a as nat);
    }
    if b >= 0 {
        lemma_decimal_digits_shape(b as nat);
    }
    if a < 0 && b < 0 {
        assert(int_text(a).skip(1) =~= decimal_digits((-a) as nat));
        assert(int_text(b).skip(1) =~= decimal_digits((-b) as nat));
        law_decimal_digits_injective((-a) as nat, (-b) as nat);
    } else if a < 0 {
        assert(int_text(a)[0] == '-');
        assert(int_text(b)[0] == decimal_digits(b as nat)[0]);
    } else if b < 0 {
        assert(int_text(b)[0] == '-');
        assert(int_text(a)[0] == decimal_digits(a as nat)[0]);
    } else {
        law_decimal_digits_injective(a as nat, b as nat);
    }
}

} // verus!
