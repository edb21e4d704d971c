//! The labeled output as a sequence of lines, and the shape of those lines.

use vstd::prelude::*;

use crate::labeled_formatter::{
    first_shot_header_text, format_spec, item_text, list_text, metadata_line, metadata_value,
    qir_type_of, record_text, rendered_text, result_array_text, result_bit, results_header_text,
    results_text, shot_block_text, shot_blocks_text, shot_text, tag_and_value_valid, user_field,
    Formatted, QsysShot, QsysShotItem,
};
use crate::laws::lemma_decimal_digits_shape;
use crate::text::{has_prefix, int_text, is_first_index, split_once_at};
use crate::value::{scalar_text, QShotValType, QsysShotItemValue};

verus! {

/// Lines, each followed by a newline.
pub open spec fn joined_lines(lines: Seq<Seq<char>>) -> Seq<char>
    decreases lines.len(),
{
    if lines.len() == 0 {
        Seq::empty()
    } else {
        joined_lines(lines.drop_last()) + lines.last() + seq!['\n']
    }
}

/// How many of the lines satisfy `p`.
pub open spec fn count_lines(lines: Seq<Seq<char>>, p: spec_fn(Seq<char>) -> bool) -> nat
    decreases lines.len(),
{
    if lines.len() == 0 {
        0
    } else {
        count_lines(lines.drop_last(), p) + if p(lines.last()) {
            1nat
        } else {
            0nat
        }
    }
}

/// The line of one output record.
pub open spec fn record_line(qir_type: Seq<char>, text: Seq<char>, tag: Seq<char>) -> Seq<char> {
    "OUTPUT\t"@ + qir_type + "\t"@ + text + "\t"@ + tag
}

/// The line that one named value of a shot writes, if any.
pub open spec fn item_lines(item: QsysShotItem) -> Seq<Seq<char>> {
    match user_field(item.0@) {
        Some((ftype, tag)) => match qir_type_of(ftype) {
            Some(q) => match rendered_text(q, item.1) {
                Some(t) => if tag_and_value_valid(Some(tag), item.1) {
                    seq![record_line(q, t, tag)]
                } else {
                    Seq::empty()
                },
                None => Seq::empty(),
            },
            None => Seq::empty(),
        },
        None => Seq::empty(),
    }
}

/// The record lines of a shot's user values.
pub open spec fn shot_lines(items: Seq<QsysShotItem>) -> Seq<Seq<char>>
    decreases items.len(),
{
    if items.len() == 0 {
        Seq::empty()
    } else {
        shot_lines(items.drop_last()) + item_lines(items.last())
    }
}

/// One metadata line.
pub open spec fn metadata_line_of(
    attributes: Map<Seq<char>, String>,
    key: Seq<char>,
    default: Seq<char>,
) -> Seq<char> {
    "METADATA\t"@ + key + "\t"@ + metadata_value(attributes, key, default)
}

/// The lines that open the first shot.
pub open spec fn first_shot_header_lines(attributes: Map<Seq<char>, String>) -> Seq<Seq<char>> {
    seq![
        "START"@,
        "METADATA\tentry_point"@,
        metadata_line_of(attributes, "qir_profiles"@, "base_profile"@),
        metadata_line_of(attributes, "required_num_qubits"@, "0"@),
        metadata_line_of(attributes, "required_num_results"@, "0"@),
    ]
}

/// The lines of shots that are not the first.
pub open spec fn blocks_lines(shots: Seq<QsysShot>) -> Seq<Seq<char>>
    decreases shots.len(),
{
    if shots.len() == 0 {
        Seq::empty()
    } else {
        blocks_lines(shots.drop_last()) + seq!["START"@] + shot_lines(shots.last()@) + seq![
            "END\t0"@,
        ]
    }
}

/// The lines of the whole labeled output.
pub open spec fn output_lines(results: Seq<QsysShot>, attributes: Map<Seq<char>, String>) -> Seq<
    Seq<char>,
> {
    if results.len() == 0 {
        Seq::empty()
    } else {
        seq!["HEADER\tschema_id\tlabeled"@, "HEADER\tschema_version\t2.1"@]
            + first_shot_header_lines(attributes) + shot_lines(results[0]@) + seq!["END\t0"@]
            + blocks_lines(results.skip(1))
    }
}

proof fn lemma_joined_concat(a: Seq<Seq<char>>, b: Seq<Seq<char>>)
    ensures
        joined_lines(a + b) == joined_lines(a) + joined_lines(b),
    decreases b.len(),
{
    if b.len() == 0 {
        assert(a + b =~= a);
        assert(joined_lines(b) =~= Seq::<char>::empty());
        assert(joined_lines(a) + joined_lines(b) =~= joined_lines(a));
    } else {
        lemma_joined_concat(a, b.drop_last());
        assert((a + b).drop_last() =~= a + b.drop_last());
        assert((a + b).last() == b.last());
        assert(joined_lines(a + b) =~= joined_lines(a) + joined_lines(b));
    }
}

proof fn lemma_count_concat(a: Seq<Seq<char>>, b: Seq<Seq<char>>, p: spec_fn(Seq<char>) -> bool)
    ensures
        count_lines(a + b, p) == count_lines(a, p) + count_lines(b, p),
    decreases b.len(),
{
    if b.len() == 0 {
        assert(a + b =~= a);
    } else {
        lemma_count_concat(a, b.drop_last(), p);
        assert((a + b).drop_last() =~= a + b.drop_last());
        assert((a + b).last() == b.last());
    }
}

proof fn lemma_joined_single(l: Seq<char>)
    ensures
        joined_lines(seq![l]) == l + seq!['\n'],
{
    assert(seq![l].drop_last() =~= Seq::<Seq<char>>::empty());
    assert(seq![l].last() == l);
    assert(joined_lines(Seq::<Seq<char>>::empty()) == Seq::<char>::empty());
    assert(joined_lines(seq![l]) =~= l + seq!['\n']);
}

proof fn lemma_item_lines(item: QsysShotItem)
    ensures
        joined_lines(item_lines(item)) == item_text(item),
{
    reveal_strlit("\n");
    match user_field(item.0@) {
        Some((ftype, tag)) => match qir_type_of(ftype) {
            Some(q) => match rendered_text(q, item.1) {
                Some(t) => if tag_and_value_valid(Some(tag), item.1) {
                    lemma_joined_single(record_line(q, t, tag));
                    assert(record_text(q, t, tag) =~= record_line(q, t, tag) + seq!['\n']);
                } else {
                },
                None => {},
            },
            None => {},
        },
        None => {},
    }
}

proof fn lemma_shot_lines(items: Seq<QsysShotItem>)
    ensures
        joined_lines(shot_lines(items)) == shot_text(items),
    decreases items.len(),
{
    if items.len() > 0 {
        lemma_shot_lines(items.drop_last());
        lemma_item_lines(items.last());
        lemma_joined_concat(shot_lines(items.drop_last()), item_lines(items.last()));
    }
}

proof fn lemma_joined_push(lines: Seq<Seq<char>>, l: Seq<char>)
    ensures
        joined_lines(lines.push(l)) == joined_lines(lines) + l + seq!['\n'],
{
    assert(lines.push(l).drop_last() =~= lines);
    assert(lines.push(l).last() == l);
}

proof fn lemma_metadata_line(attributes: Map<Seq<char>, String>, key: Seq<char>, default: Seq<char>)
    ensures
        metadata_line(attributes, key, default) == metadata_line_of(attributes, key, default)
            + seq!['\n'],
{
    reveal_strlit("\n");
    assert(metadata_line(attributes, key, default) =~= metadata_line_of(attributes, key, default)
        + seq!['\n']);
}

proof fn lemma_fixed_lines()
    ensures
        "START\n"@ == "START"@ + seq!['\n'],
        "END\t0\n"@ == "END\t0"@ + seq!['\n'],
        "METADATA\tentry_point\n"@ == "METADATA\tentry_point"@ + seq!['\n'],
        "HEADER\tschema_id\tlabeled\n"@ == "HEADER\tschema_id\tlabeled"@ + seq!['\n'],
        "HEADER\tschema_version\t2.1\n"@ == "HEADER\tschema_version\t2.1"@ + seq!['\n'],
{
    reveal_strlit("START\n");
    reveal_strlit("START");
    reveal_strlit("END\t0\n");
    reveal_strlit("END\t0");
    reveal_strlit("METADATA\tentry_point\n");
    reveal_strlit("METADATA\tentry_point");
    reveal_strlit("HEADER\tschema_id\tlabeled\n");
    reveal_strlit("HEADER\tschema_id\tlabeled");
    reveal_strlit("HEADER\tschema_version\t2.1\n");
    reveal_strlit("HEADER\tschema_version\t2.1");
    assert("START\n"@ =~= "START"@ + seq!['\n']);
    assert("END\t0\n"@ =~= "END\t0"@ + seq!['\n']);
    assert("METADATA\tentry_point\n"@ =~= "METADATA\tentry_point"@ + seq!['\n']);
    assert("HEADER\tschema_id\tlabeled\n"@ =~= "HEADER\tschema_id\tlabeled"@ + seq!['\n']);
    assert("HEADER\tschema_version\t2.1\n"@ =~= "HEADER\tschema_version\t2.1"@ + seq!['\n']);
}

proof fn lemma_blocks_lines(shots: Seq<QsysShot>)
    ensures
        joined_lines(blocks_lines(shots)) == shot_blocks_text(shots),
    decreases shots.len(),
{
    if shots.len() > 0 {
        let prev = blocks_lines(shots.drop_last());
        let body = shot_lines(shots.last()@);
        lemma_blocks_lines(shots.drop_last());
        lemma_shot_lines(shots.last()@);
        lemma_fixed_lines();
        lemma_joined_concat(prev, seq!["START"@]);
        lemma_joined_concat(prev + seq!["START"@], body);
        lemma_joined_concat(prev + seq!["START"@] + body, seq!["END\t0"@]);
        lemma_joined_single("START"@);
        lemma_joined_single("END\t0"@);
        assert(joined_lines(blocks_lines(shots)) =~= shot_blocks_text(shots.drop_last())
            + shot_block_text(shots.last()@));
    }
}

/// The labeled output is its lines, each followed by a newline: the two
/// header lines, the first shot's `START`, entry-point and three metadata
/// lines, its record lines and `END\t0`, then for every further shot `START`,
/// its record lines and `END\t0`.
pub proof fn law_output_lines(results: Seq<QsysShot>, attributes: Map<Seq<char>, String>)
    ensures
        results_text(results, attributes) == joined_lines(output_lines(results, attributes)),
{
    if results.len() > 0 {
        lemma_fixed_lines();
        let h = seq!["HEADER\tschema_id\tlabeled"@, "HEADER\tschema_version\t2.1"@];
        let m = first_shot_header_lines(attributes);
        let body = shot_lines(results[0]@);
        let rest = blocks_lines(results.skip(1));
        lemma_joined_push(seq!["HEADER\tschema_id\tlabeled"@], "HEADER\tschema_version\t2.1"@);
        lemma_joined_single("HEADER\tschema_id\tlabeled"@);
        assert(h == seq!["HEADER\tschema_id\tlabeled"@].push("HEADER\tschema_version\t2.1"@));
        assert(joined_lines(h) =~= results_header_text());
        let m0 = seq!["START"@];
        let m1 = m0.push("METADATA\tentry_point"@);
        let m2 = m1.push(metadata_line_of(attributes, "qir_profiles"@, "base_profile"@));
        let m3 = m2.push(metadata_line_of(attributes, "required_num_qubits"@, "0"@));
        let m4 = m3.push(metadata_line_of(attributes, "required_num_results"@, "0"@));
        assert(m == m4);
        lemma_joined_single("START"@);
        lemma_joined_push(m0, "METADATA\tentry_point"@);
        lemma_joined_push(m1, metadata_line_of(attributes, "qir_profiles"@, "base_profile"@));
        lemma_joined_push(m2, metadata_line_of(attributes, "required_num_qubits"@, "0"@));
        lemma_joined_push(m3, metadata_line_of(attributes, "required_num_results"@, "0"@));
        lemma_metadata_line(attributes, "qir_profiles"@, "base_profile"@);
        lemma_metadata_line(attributes, "required_num_qubits"@, "0"@);
        lemma_metadata_line(attributes, "required_num_results"@, "0"@);
        assert(joined_lines(m) =~= first_shot_header_text(attributes));
        lemma_shot_lines(results[0]@);
        lemma_blocks_lines(results.skip(1));
        lemma_joined_single("END\t0"@);
        lemma_joined_concat(h, m);
        lemma_joined_concat(h + m, body);
        lemma_joined_concat(h + m + body, seq!["END\t0"@]);
        lemma_joined_concat(h + m + body + seq!["END\t0"@], rest);
        assert(joined_lines(output_lines(results, attributes)) =~= results_text(
            results,
            attributes,
        ));
    }
}

/// A shot's opening line.
pub open spec fn is_start_line() -> spec_fn(Seq<char>) -> bool {
    |l: Seq<char>| l == "START"@
}

/// A shot's closing line.
pub open spec fn is_end_line() -> spec_fn(Seq<char>) -> bool {
    |l: Seq<char>| l == "END\t0"@
}

/// A header line.
pub open spec fn is_header_line() -> spec_fn(Seq<char>) -> bool {
    |l: Seq<char>| has_prefix(l, "HEADER\t"@)
}

/// A metadata line.
pub open spec fn is_metadata_line() -> spec_fn(Seq<char>) -> bool {
    |l: Seq<char>| has_prefix(l, "METADATA\t"@)
}

/// A record line.
pub open spec fn is_record_line(l: Seq<char>) -> bool {
    has_prefix(l, "OUTPUT\t"@)
}

/// A line is a shot boundary, a header, a metadata or a record line.
pub open spec fn is_known_line(l: Seq<char>) -> bool {
    is_start_line()(l) || is_end_line()(l) || is_header_line()(l) || is_metadata_line()(l)
        || is_record_line(l)
}

proof fn lemma_first_chars()
    ensures
        "START"@.len() > 0 && "START"@[0] == 'S',
        "END\t0"@.len() > 0 && "END\t0"@[0] == 'E',
        "HEADER\t"@.len() > 0 && "HEADER\t"@[0] == 'H',
        "METADATA\t"@.len() > 0 && "METADATA\t"@[0] == 'M',
        "OUTPUT\t"@.len() > 0 && "OUTPUT\t"@[0] == 'O',
        has_prefix("HEADER\tschema_id\tlabeled"@, "HEADER\t"@),
        has_prefix("HEADER\tschema_version\t2.1"@, "HEADER\t"@),
        has_prefix("METADATA\tentry_point"@, "METADATA\t"@),
        "HEADER\tschema_id\tlabeled"@[0] == 'H',
        "HEADER\tschema_version\t2.1"@[0] == 'H',
        "METADATA\tentry_point"@[0] == 'M',
{
    reveal_strlit("START");
    reveal_strlit("END\t0");
    reveal_strlit("HEADER\t");
    reveal_strlit("METADATA\t");
    reveal_strlit("OUTPUT\t");
    reveal_strlit("HEADER\tschema_id\tlabeled");
    reveal_strlit("HEADER\tschema_version\t2.1");
    reveal_strlit("METADATA\tentry_point");
    assert("HEADER\tschema_id\tlabeled"@.take(7) =~= "HEADER\t"@);
    assert("HEADER\tschema_version\t2.1"@.take(7) =~= "HEADER\t"@);
    assert("METADATA\tentry_point"@.take(9) =~= "METADATA\t"@);
}

/// A line with a prefix begins with the prefix's first character.
proof fn lemma_prefix_first(l: Seq<char>, prefix: Seq<char>)
    requires
        prefix.len() > 0,
        has_prefix(l, prefix),
    ensures
        l.len() > 0,
        l[0] == prefix[0],
{
    assert(l.take(prefix.len() as int)[0] == l[0]);
}

/// What a line's first character rules out.
proof fn lemma_line_kinds(l: Seq<char>)
    ensures
        l.len() > 0 && l[0] != 'S' ==> !is_start_line()(l),
        l.len() > 0 && l[0] != 'E' ==> !is_end_line()(l),
        l.len() > 0 && l[0] != 'H' ==> !is_header_line()(l),
        l.len() > 0 && l[0] != 'M' ==> !is_metadata_line()(l),
{
    lemma_first_chars();
    if is_header_line()(l) {
        lemma_prefix_first(l, "HEADER\t"@);
    }
    if is_metadata_line()(l) {
        lemma_prefix_first(l, "METADATA\t"@);
    }
}

proof fn lemma_record_line_prefix(q: Seq<char>, t: Seq<char>, tag: Seq<char>)
    ensures
        is_record_line(record_line(q, t, tag)),
        record_line(q, t, tag).len() > 0,
        record_line(q, t, tag)[0] == 'O',
{
    lemma_first_chars();
    let l = record_line(q, t, tag);
    assert(l =~= "OUTPUT\t"@ + (q + "\t"@ + t + "\t"@ + tag));
    assert(l.take("OUTPUT\t"@.len() as int) =~= "OUTPUT\t"@);
}

proof fn lemma_item_lines_records(item: QsysShotItem)
    ensures
        forall|j: int|
            0 <= j < item_lines(item).len() ==> is_record_line(#[trigger] item_lines(item)[j])
                && item_lines(item)[j].len() > 0 && item_lines(item)[j][0] == 'O',
{
    match user_field(item.0@) {
        Some((ftype, tag)) => match qir_type_of(ftype) {
            Some(q) => match rendered_text(q, item.1) {
                Some(t) => {
                    lemma_record_line_prefix(q, t, tag);
                },
                None => {},
            },
            None => {},
        },
        None => {},
    }
}

proof fn lemma_shot_lines_are_records(items: Seq<QsysShotItem>)
    ensures
        forall|i: int|
            0 <= i < shot_lines(items).len() ==> is_record_line(#[trigger] shot_lines(items)[i])
                && shot_lines(items)[i].len() > 0 && shot_lines(items)[i][0] == 'O',
    decreases items.len(),
{
    if items.len() > 0 {
        lemma_shot_lines_are_records(items.drop_last());
        let item = items.last();
        lemma_item_lines_records(item);
        let a = shot_lines(items.drop_last());
        let b = item_lines(item);
        assert forall|i: int|
            0 <= i < shot_lines(items).len() implies is_record_line(
            #[trigger] shot_lines(items)[i],
        ) && shot_lines(items)[i].len() > 0 && shot_lines(items)[i][0] == 'O' by {
            assert(shot_lines(items) == a + b);
            if i >= a.len() {
                assert(shot_lines(items)[i] == b[i - a.len()]);
            } else {
                assert(shot_lines(items)[i] == a[i]);
            }
        }
    }
}

proof fn lemma_count_none(lines: Seq<Seq<char>>, p: spec_fn(Seq<char>) -> bool)
    requires
        forall|i: int| 0 <= i < lines.len() ==> !p(#[trigger] lines[i]),
    ensures
        count_lines(lines, p) == 0,
    decreases lines.len(),
{
    if lines.len() > 0 {
        assert(!p(lines[lines.len() - 1]));
        lemma_count_none(lines.drop_last(), p);
    }
}

proof fn lemma_count_single(l: Seq<char>, p: spec_fn(Seq<char>) -> bool)
    ensures
        count_lines(seq![l], p) == if p(l) {
            1nat
        } else {
            0nat
        },
{
    assert(seq![l].drop_last() =~= Seq::<Seq<char>>::empty());
    assert(seq![l].last() == l);
    assert(count_lines(Seq::<Seq<char>>::empty(), p) == 0);
}

/// Counts and kinds of a shot's record lines.
proof fn lemma_shot_lines_counts(items: Seq<QsysShotItem>)
    ensures
        count_lines(shot_lines(items), is_start_line()) == 0,
        count_lines(shot_lines(items), is_end_line()) == 0,
        count_lines(shot_lines(items), is_header_line()) == 0,
        count_lines(shot_lines(items), is_metadata_line()) == 0,
        forall|i: int| 0 <= i < shot_lines(items).len() ==> is_known_line(#[trigger] shot_lines(items)[i]),
{
    let ls = shot_lines(items);
    lemma_shot_lines_are_records(items);
    assert forall|i: int| 0 <= i < ls.len() implies !is_start_line()(#[trigger] ls[i]) && !is_end_line()(ls[i])
        && !is_header_line()(ls[i]) && !is_metadata_line()(ls[i]) by {
        lemma_line_kinds(ls[i]);
    }
    lemma_count_none(ls, is_start_line());
    lemma_count_none(ls, is_end_line());
    lemma_count_none(ls, is_header_line());
    lemma_count_none(ls, is_metadata_line());
}

proof fn lemma_known_concat(a: Seq<Seq<char>>, b: Seq<Seq<char>>)
    requires
        forall|i: int| 0 <= i < a.len() ==> is_known_line(#[trigger] a[i]),
        forall|i: int| 0 <= i < b.len() ==> is_known_line(#[trigger] b[i]),
    ensures
        forall|i: int| 0 <= i < (a + b).len() ==> is_known_line(#[trigger] (a + b)[i]),
{
    assert forall|i: int| 0 <= i < (a + b).len() implies is_known_line(#[trigger] (a + b)[i]) by {
        if i < a.len() {
            assert((a + b)[i] == a[i]);
        } else {
            assert((a + b)[i] == b[i - a.len()]);
        }
    }
}

proof fn lemma_fixed_line_counts()
    ensures
        count_lines(seq!["START"@], is_start_line()) == 1,
        count_lines(seq!["START"@], is_end_line()) == 0,
        count_lines(seq!["START"@], is_header_line()) == 0,
        count_lines(seq!["START"@], is_metadata_line()) == 0,
        count_lines(seq!["END\t0"@], is_start_line()) == 0,
        count_lines(seq!["END\t0"@], is_end_line()) == 1,
        count_lines(seq!["END\t0"@], is_header_line()) == 0,
        count_lines(seq!["END\t0"@], is_metadata_line()) == 0,
        is_known_line("START"@),
        is_known_line("END\t0"@),
{
    lemma_first_chars();
    lemma_line_kinds("START"@);
    lemma_line_kinds("END\t0"@);
    lemma_count_single("START"@, is_start_line());
    lemma_count_single("START"@, is_end_line());
    lemma_count_single("START"@, is_header_line());
    lemma_count_single("START"@, is_metadata_line());
    lemma_count_single("END\t0"@, is_start_line());
    lemma_count_single("END\t0"@, is_end_line());
    lemma_count_single("END\t0"@, is_header_line());
    lemma_count_single("END\t0"@, is_metadata_line());
}

proof fn lemma_count4(
    a: Seq<Seq<char>>,
    b: Seq<Seq<char>>,
    c: Seq<Seq<char>>,
    d: Seq<Seq<char>>,
    p: spec_fn(Seq<char>) -> bool,
)
    ensures
        count_lines(a + b + c + d, p) == count_lines(a, p) + count_lines(b, p) + count_lines(c, p)
            + count_lines(d, p),
{
    lemma_count_concat(a, b, p);
    lemma_count_concat(a + b, c, p);
    lemma_count_concat(a + b + c, d, p);
}

proof fn lemma_blocks_counts(shots: Seq<QsysShot>)
    ensures
        count_lines(blocks_lines(shots), is_start_line()) == shots.len(),
        count_lines(blocks_lines(shots), is_end_line()) == shots.len(),
        count_lines(blocks_lines(shots), is_header_line()) == 0,
        count_lines(blocks_lines(shots), is_metadata_line()) == 0,
        forall|i: int|
            0 <= i < blocks_lines(shots).len() ==> is_known_line(#[trigger] blocks_lines(shots)[i]),
    decreases shots.len(),
{
    if shots.len() == 0 {
        assert(blocks_lines(shots) =~= Seq::<Seq<char>>::empty());
    } else {
        let prev = blocks_lines(shots.drop_last());
        let body = shot_lines(shots.last()@);
        let st = seq!["START"@];
        let en = seq!["END\t0"@];
        lemma_blocks_counts(shots.drop_last());
        lemma_shot_lines_counts(shots.last()@);
        lemma_fixed_line_counts();
        assert(blocks_lines(shots) == prev + st + body + en);
        lemma_count4(prev, st, body, en, is_start_line());
        lemma_count4(prev, st, body, en, is_end_line());
        lemma_count4(prev, st, body, en, is_header_line());
        lemma_count4(prev, st, body, en, is_metadata_line());
        assert(is_known_line(st[0]));
        assert(is_known_line(en[0]));
        lemma_known_concat(prev, st);
        lemma_known_concat(prev + st, body);
        lemma_known_concat(prev + st + body, en);
    }
}

proof fn lemma_metadata_line_kind(attributes: Map<Seq<char>, String>, key: Seq<char>, default: Seq<char>)
    ensures
        is_metadata_line()(metadata_line_of(attributes, key, default)),
        !is_start_line()(metadata_line_of(attributes, key, default)),
        !is_end_line()(metadata_line_of(attributes, key, default)),
        !is_header_line()(metadata_line_of(attributes, key, default)),
{
    lemma_first_chars();
    let l = metadata_line_of(attributes, key, default);
    assert(l =~= "METADATA\t"@ + (key + "\t"@ + metadata_value(attributes, key, default)));
    assert(l.take("METADATA\t"@.len() as int) =~= "METADATA\t"@);
    lemma_prefix_first(l, "METADATA\t"@);
    lemma_line_kinds(l);
}

proof fn lemma_header_and_metadata_counts(attributes: Map<Seq<char>, String>)
    ensures
        ({
            let h = seq!["HEADER\tschema_id\tlabeled"@, "HEADER\tschema_version\t2.1"@];
            let m = first_shot_header_lines(attributes);
            &&& count_lines(h, is_start_line()) == 0
            &&& count_lines(h, is_end_line()) == 0
            &&& count_lines(h, is_header_line()) == 2
            &&& count_lines(h, is_metadata_line()) == 0
            &&& count_lines(m, is_start_line()) == 1
            &&& count_lines(m, is_end_line()) == 0
            &&& count_lines(m, is_header_line()) == 0
            &&& count_lines(m, is_metadata_line()) == 4
            &&& forall|i: int| 0 <= i < h.len() ==> is_known_line(#[trigger] h[i])
            &&& forall|i: int| 0 <= i < m.len() ==> is_known_line(#[trigger] m[i])
        }),
{
    lemma_first_chars();
    let h1 = "HEADER\tschema_id\tlabeled"@;
    let h2 = "HEADER\tschema_version\t2.1"@;
    let e = "METADATA\tentry_point"@;
    let m1 = metadata_line_of(attributes, "qir_profiles"@, "base_profile"@);
    let m2 = metadata_line_of(attributes, "required_num_qubits"@, "0"@);
    let m3 = metadata_line_of(attributes, "required_num_results"@, "0"@);
    lemma_line_kinds(h1);
    lemma_line_kinds(h2);
    lemma_line_kinds(e);
    lemma_line_kinds("START"@);
    lemma_metadata_line_kind(attributes, "qir_profiles"@, "base_profile"@);
    lemma_metadata_line_kind(attributes, "required_num_qubits"@, "0"@);
    lemma_metadata_line_kind(attributes, "required_num_results"@, "0"@);
    let h = seq![h1, h2];
    assert(h == seq![h1] + seq![h2]);
    let m = first_shot_header_lines(attributes);
    assert(m == seq!["START"@] + seq![e] + seq![m1] + seq![m2] + seq![m3]);
    let ps = seq![is_start_line(), is_end_line(), is_header_line(), is_metadata_line()];
    assert forall|k: int| 0 <= k < 4 implies {
        let p = #[trigger] ps[k];
        &&& count_lines(h, p) == count_lines(seq![h1], p) + count_lines(seq![h2], p)
        &&& count_lines(m, p) == count_lines(seq!["START"@], p) + count_lines(seq![e], p)
            + count_lines(seq![m1], p) + count_lines(seq![m2], p) + count_lines(seq![m3], p)
    } by {
        let p = ps[k];
        lemma_count_concat(seq![h1], seq![h2], p);
        lemma_count4(seq!["START"@], seq![e], seq![m1], seq![m2], p);
        lemma_count_concat(seq!["START"@] + seq![e] + seq![m1] + seq![m2], seq![m3], p);
        lemma_count_single(h1, p);
        lemma_count_single(h2, p);
        lemma_count_single("START"@, p);
        lemma_count_single(e, p);
        lemma_count_single(m1, p);
        lemma_count_single(m2, p);
        lemma_count_single(m3, p);
    }
    assert(ps[0] == is_start_line());
    assert(ps[1] == is_end_line());
    assert(ps[2] == is_header_line());
    assert(ps[3] == is_metadata_line());
    lemma_count_single(h1, is_header_line());
    lemma_count_single(h2, is_header_line());
    lemma_count_single(h1, is_start_line());
    lemma_count_single(h2, is_start_line());
    lemma_count_single(h1, is_end_line());
    lemma_count_single(h2, is_end_line());
    lemma_count_single(h1, is_metadata_line());
    lemma_count_single(h2, is_metadata_line());
    lemma_count_single("START"@, is_start_line());
    lemma_count_single("START"@, is_end_line());
    lemma_count_single("START"@, is_header_line());
    lemma_count_single("START"@, is_metadata_line());
    lemma_count_single(e, is_start_line());
    lemma_count_single(e, is_end_line());
    lemma_count_single(e, is_header_line());
    lemma_count_single(e, is_metadata_line());
    lemma_count_single(m1, is_start_line());
    lemma_count_single(m1, is_end_line());
    lemma_count_single(m1, is_header_line());
    lemma_count_single(m1, is_metadata_line());
    lemma_count_single(m2, is_start_line());
    lemma_count_single(m2, is_end_line());
    lemma_count_single(m2, is_header_line());
    lemma_count_single(m2, is_metadata_line());
    lemma_count_single(m3, is_start_line());
    lemma_count_single(m3, is_end_line());
    lemma_count_single(m3, is_header_line());
    lemma_count_single(m3, is_metadata_line());
}

/// The lines of the output of non-empty results: the first seven are the
/// two header lines, `START`, the entry-point line and the three metadata
/// lines; the last is `END\t0`; there are as many `START` lines and as many
/// `END\t0` lines as shots, exactly two header lines and four metadata lines
/// (so all of them come before the first shot's values), and every other line
/// is an `OUTPUT` record. With `law_output_lines`, the output is these lines
/// each followed by a newline.
pub proof fn law_output_line_structure(results: Seq<QsysShot>, attributes: Map<Seq<char>, String>)
    requires
        results.len() > 0,
    ensures
        ({
            let ls = output_lines(results, attributes);
            &&& ls.len() >= 8
            &&& ls.take(7) == seq!["HEADER\tschema_id\tlabeled"@, "HEADER\tschema_version\t2.1"@]
                + first_shot_header_lines(attributes)
            &&& ls.last() == "END\t0"@
            &&& count_lines(ls, is_start_line()) == results.len()
            &&& count_lines(ls, is_end_line()) == results.len()
            &&& count_lines(ls, is_header_line()) == 2
            &&& count_lines(ls, is_metadata_line()) == 4
            &&& forall|i: int| 0 <= i < ls.len() ==> is_known_line(#[trigger] ls[i])
        }),
{
    let h = seq!["HEADER\tschema_id\tlabeled"@, "HEADER\tschema_version\t2.1"@];
    let m = first_shot_header_lines(attributes);
    let body = shot_lines(results[0]@);
    let en = seq!["END\t0"@];
    let rest = blocks_lines(results.skip(1));
    let ls = output_lines(results, attributes);
    assert(ls == (h + m) + body + en + rest);
    lemma_header_and_metadata_counts(attributes);
    lemma_shot_lines_counts(results[0]@);
    lemma_fixed_line_counts();
    lemma_blocks_counts(results.skip(1));
    lemma_count_concat(h, m, is_start_line());
    lemma_count_concat(h, m, is_end_line());
    lemma_count_concat(h, m, is_header_line());
    lemma_count_concat(h, m, is_metadata_line());
    lemma_count4(h + m, body, en, rest, is_start_line());
    lemma_count4(h + m, body, en, rest, is_end_line());
    lemma_count4(h + m, body, en, rest, is_header_line());
    lemma_count4(h + m, body, en, rest, is_metadata_line());
    assert(results.skip(1).len() == results.len() - 1);
    lemma_known_concat(h, m);
    lemma_known_concat(h + m, body);
    assert(is_known_line(en[0]));
    lemma_known_concat(h + m + body, en);
    lemma_known_concat(h + m + body + en, rest);
    assert(ls.take(7) =~= h + m);
    if results.len() == 1 {
        assert(results.skip(1) =~= Seq::<QsysShot>::empty());
        assert(rest =~= Seq::<Seq<char>>::empty());
        assert(ls.last() == en[0]);
    } else {
        let shots = results.skip(1);
        assert(rest == blocks_lines(shots.drop_last()) + seq!["START"@] + shot_lines(shots.last()@) + en);
        assert(ls.last() == rest.last());
    }
}

/// No character of `s` is a newline.
pub open spec fn no_newline(s: Seq<char>) -> bool {
    forall|i: int| 0 <= i < s.len() ==> s[i] != '\n'
}

/// No float of the value has a newline in its display.
pub open spec fn value_displays_no_newline(val: QsysShotItemValue) -> bool {
    match val {
        QsysShotItemValue::Scalar(QShotValType::Float(f)) => no_newline(f.display@),
        QsysShotItemValue::List(vs) => forall|i: int|
            0 <= i < vs@.len() ==> (#[trigger] vs@[i] matches QShotValType::Float(f) ==> no_newline(
                f.display@,
            )),
        _ => true,
    }
}

/// No name, float display or attribute value holds a newline.
pub open spec fn inputs_without_newlines(
    results: Seq<QsysShot>,
    attributes: Map<Seq<char>, String>,
) -> bool {
    &&& forall|i: int, j: int|
        0 <= i < results.len() && 0 <= j < results[i]@.len() ==> no_newline(
            #[trigger] results[i]@[j].0@,
        ) && value_displays_no_newline(results[i]@[j].1)
    &&& forall|k: Seq<char>| #[trigger] attributes.contains_key(k) ==> no_newline(attributes[k]@)
}

proof fn lemma_no_newline_concat(a: Seq<char>, b: Seq<char>)
    requires
        no_newline(a),
        no_newline(b),
    ensures
        no_newline(a + b),
{
    assert forall|i: int| 0 <= i < (a + b).len() implies (a + b)[i] != '\n' by {
        if i < a.len() {
            assert((a + b)[i] == a[i]);
        } else {
            assert((a + b)[i] == b[i - a.len()]);
        }
    }
}

proof fn lemma_no_newline_sub(a: Seq<char>, lo: int, hi: int)
    requires
        no_newline(a),
        0 <= lo <= hi <= a.len(),
    ensures
        no_newline(a.subrange(lo, hi)),
{
    assert forall|i: int| 0 <= i < hi - lo implies a.subrange(lo, hi)[i] != '\n' by {
        assert(a.subrange(lo, hi)[i] == a[lo + i]);
    }
}

proof fn lemma_literals_no_newline()
    ensures
        no_newline("OUTPUT\t"@),
        no_newline("\t"@),
        no_newline("True"@),
        no_newline("False"@),
        no_newline("true"@),
        no_newline("false"@),
        no_newline("nan"@),
        no_newline(".0"@),
        no_newline("["@),
        no_newline("]"@),
        no_newline(", "@),
        no_newline("INT"@),
        no_newline("DOUBLE"@),
        no_newline("ARRAY"@),
        no_newline("TUPLE"@),
        no_newline("METADATA\t"@),
        no_newline("qir_profiles"@),
        no_newline("base_profile"@),
        no_newline("required_num_qubits"@),
        no_newline("required_num_results"@),
        no_newline("0"@),
        no_newline("START"@),
        no_newline("END\t0"@),
        no_newline("METADATA\tentry_point"@),
        no_newline("HEADER\tschema_id\tlabeled"@),
        no_newline("HEADER\tschema_version\t2.1"@),
{
    reveal_strlit("OUTPUT\t");
    reveal_strlit("\t");
    reveal_strlit("True");
    reveal_strlit("False");
    reveal_strlit("true");
    reveal_strlit("false");
    reveal_strlit("nan");
    reveal_strlit(".0");
    reveal_strlit("[");
    reveal_strlit("]");
    reveal_strlit(", ");
    reveal_strlit("INT");
    reveal_strlit("DOUBLE");
    reveal_strlit("ARRAY");
    reveal_strlit("TUPLE");
    reveal_strlit("METADATA\t");
    reveal_strlit("qir_profiles");
    reveal_strlit("base_profile");
    reveal_strlit("required_num_qubits");
    reveal_strlit("required_num_results");
    reveal_strlit("0");
    reveal_strlit("START");
    reveal_strlit("END\t0");
    reveal_strlit("METADATA\tentry_point");
    reveal_strlit("HEADER\tschema_id\tlabeled");
    reveal_strlit("HEADER\tschema_version\t2.1");
}

proof fn lemma_int_text_no_newline(i: int)
    ensures
        no_newline(int_text(i)),
{
    let n: nat = if i < 0 { (-i) as nat } else { i as nat };
    lemma_decimal_digits_shape(n);
    assert(no_newline(crate::text::decimal_digits(n)));
    if i < 0 {
        assert(no_newline(seq!['-']));
        lemma_no_newline_concat(seq!['-'], crate::text::decimal_digits(n));
    }
}

proof fn lemma_scalar_text_no_newline(v: QShotValType)
    requires
        v matches QShotValType::Float(f) ==> no_newline(f.display@),
    ensures
        no_newline(scalar_text(v)),
{
    lemma_literals_no_newline();
    match v {
        QShotValType::Bool(_) => {},
        QShotValType::Int(i) => lemma_int_text_no_newline(i as int),
        QShotValType::Float(f) => {
            lemma_no_newline_concat(f.display@, ".0"@);
        },
    }
}

proof fn lemma_list_text_no_newline(vs: Seq<QShotValType>)
    requires
        forall|i: int|
            0 <= i < vs.len() ==> (#[trigger] vs[i] matches QShotValType::Float(f) ==> no_newline(
                f.display@,
            )),
    ensures
        no_newline(list_text(vs)),
    decreases vs.len(),
{
    lemma_literals_no_newline();
    if vs.len() == 1 {
        assert(vs[0] matches QShotValType::Float(f) ==> no_newline(f.display@));
        lemma_scalar_text_no_newline(vs[0]);
    } else if vs.len() > 1 {
        let last = vs.last();
        assert(vs[vs.len() - 1] matches QShotValType::Float(f) ==> no_newline(f.display@));
        lemma_scalar_text_no_newline(last);
        assert forall|i: int|
            0 <= i < vs.drop_last().len() implies (#[trigger] vs.drop_last()[i] matches QShotValType::Float(
            f,
        ) ==> no_newline(f.display@)) by {
            assert(vs.drop_last()[i] == vs[i]);
        }
        lemma_list_text_no_newline(vs.drop_last());
        lemma_no_newline_concat(list_text(vs.drop_last()), ", "@);
        lemma_no_newline_concat(list_text(vs.drop_last()) + ", "@, scalar_text(last));
    }
}

proof fn lemma_rendered_no_newline(q: Seq<char>, val: QsysShotItemValue)
    requires
        value_displays_no_newline(val),
    ensures
        rendered_text(q, val) matches Some(t) ==> no_newline(t),
{
    lemma_literals_no_newline();
    match format_spec(q, val) {
        Formatted::Text(t) => {
            if q == "RESULT_ARRAY"@ {
                if let QsysShotItemValue::List(vs) = val {
                    if let Some(bits) = result_array_text(vs@) {
                        assert forall|i: int| 0 <= i < bits.len() implies bits[i] != '\n' by {
                            assert(result_bit(vs@[i]) is Some);
                        }
                    }
                }
            }
        },
        Formatted::Original => {
            match val {
                QsysShotItemValue::Scalar(v) => lemma_scalar_text_no_newline(v),
                QsysShotItemValue::List(vs) => {
                    lemma_list_text_no_newline(vs@);
                    lemma_no_newline_concat("["@, list_text(vs@));
                    lemma_no_newline_concat("["@ + list_text(vs@), "]"@);
                },
                QsysShotItemValue::Invalid => {},
            }
        },
        Formatted::Invalid => {},
    }
}

proof fn lemma_user_field_no_newline(name: Seq<char>)
    requires
        no_newline(name),
    ensures
        user_field(name) matches Some((f, t)) ==> no_newline(f) && no_newline(t),
{
    if let Some((f, t)) = user_field(name) {
        let p = "USER:"@.len() as int;
        let rest = name.skip(p);
        lemma_no_newline_sub(name, p, name.len() as int);
        assert(rest == name.subrange(p, name.len() as int));
        let k = choose|k: int| is_first_index(rest, ':', k);
        assert(split_once_at(rest, ':') == Some((rest.take(k), rest.skip(k + 1))));
        lemma_no_newline_sub(rest, 0, k);
        lemma_no_newline_sub(rest, k + 1, rest.len() as int);
        assert(rest.take(k) == rest.subrange(0, k));
        assert(rest.skip(k + 1) == rest.subrange(k + 1, rest.len() as int));
    }
}

proof fn lemma_item_lines_no_newline(item: QsysShotItem)
    requires
        no_newline(item.0@),
        value_displays_no_newline(item.1),
    ensures
        forall|j: int| 0 <= j < item_lines(item).len() ==> no_newline(#[trigger] item_lines(item)[j]),
{
    lemma_literals_no_newline();
    lemma_user_field_no_newline(item.0@);
    if let Some((ftype, tag)) = user_field(item.0@) {
        if let Some(q) = qir_type_of(ftype) {
            assert(no_newline(q));
            lemma_rendered_no_newline(q, item.1);
            if let Some(t) = rendered_text(q, item.1) {
                lemma_no_newline_concat("OUTPUT\t"@, q);
                lemma_no_newline_concat("OUTPUT\t"@ + q, "\t"@);
                lemma_no_newline_concat("OUTPUT\t"@ + q + "\t"@, t);
                lemma_no_newline_concat("OUTPUT\t"@ + q + "\t"@ + t, "\t"@);
                lemma_no_newline_concat("OUTPUT\t"@ + q + "\t"@ + t + "\t"@, tag);
            }
        }
    }
}

proof fn lemma_lines_no_newline_concat(a: Seq<Seq<char>>, b: Seq<Seq<char>>)
    requires
        forall|i: int| 0 <= i < a.len() ==> no_newline(#[trigger] a[i]),
        forall|i: int| 0 <= i < b.len() ==> no_newline(#[trigger] b[i]),
    ensures
        forall|i: int| 0 <= i < (a + b).len() ==> no_newline(#[trigger] (a + b)[i]),
{
    assert forall|i: int| 0 <= i < (a + b).len() implies no_newline(#[trigger] (a + b)[i]) by {
        if i < a.len() {
            assert((a + b)[i] == a[i]);
        } else {
            assert((a + b)[i] == b[i - a.len()]);
        }
    }
}

proof fn lemma_shot_lines_no_newline(items: Seq<QsysShotItem>)
    requires
        forall|j: int|
            0 <= j < items.len() ==> no_newline(#[trigger] items[j].0@)
                && value_displays_no_newline(items[j].1),
    ensures
        forall|i: int| 0 <= i < shot_lines(items).len() ==> no_newline(#[trigger] shot_lines(items)[i]),
    decreases items.len(),
{
    if items.len() > 0 {
        assert forall|j: int| 0 <= j < items.drop_last().len() implies no_newline(
            #[trigger] items.drop_last()[j].0@,
        ) && value_displays_no_newline(items.drop_last()[j].1) by {
            assert(items.drop_last()[j] == items[j]);
        }
        lemma_shot_lines_no_newline(items.drop_last());
        assert(no_newline(items[items.len() - 1].0@));
        lemma_item_lines_no_newline(items.last());
        lemma_lines_no_newline_concat(shot_lines(items.drop_last()), item_lines(items.last()));
    }
}

proof fn lemma_blocks_no_newline(shots: Seq<QsysShot>)
    requires
        forall|i: int, j: int|
            0 <= i < shots.len() && 0 <= j < shots[i]@.len() ==> no_newline(
                #[trigger] shots[i]@[j].0@,
            ) && value_displays_no_newline(shots[i]@[j].1),
    ensures
        forall|i: int|
            0 <= i < blocks_lines(shots).len() ==> no_newline(#[trigger] blocks_lines(shots)[i]),
    decreases shots.len(),
{
    if shots.len() > 0 {
        lemma_literals_no_newline();
        let n = shots.len() - 1;
        assert forall|i: int, j: int|
            0 <= i < shots.drop_last().len() && 0 <= j < shots.drop_last()[i]@.len() implies no_newline(
            #[trigger] shots.drop_last()[i]@[j].0@,
        ) && value_displays_no_newline(shots.drop_last()[i]@[j].1) by {
            assert(shots.drop_last()[i] == shots[i]);
        }
        lemma_blocks_no_newline(shots.drop_last());
        assert forall|j: int| 0 <= j < shots.last()@.len() implies no_newline(
            #[trigger] shots.last()@[j].0@,
        ) && value_displays_no_newline(shots.last()@[j].1) by {
            assert(shots[n]@[j] == shots.last()@[j]);
        }
        lemma_shot_lines_no_newline(shots.last()@);
        let prev = blocks_lines(shots.drop_last());
        let st = seq!["START"@];
        let en = seq!["END\t0"@];
        assert(no_newline(st[0]));
        assert(no_newline(en[0]));
        lemma_lines_no_newline_concat(prev, st);
        lemma_lines_no_newline_concat(prev + st, shot_lines(shots.last()@));
        lemma_lines_no_newline_concat(prev + st + shot_lines(shots.last()@), en);
    }
}

/// When no name, float display or attribute value holds a newline, no line
/// of the output holds one: the output's lines are exactly `output_lines`.
pub proof fn law_output_lines_have_no_newline(
    results: Seq<QsysShot>,
    attributes: Map<Seq<char>, String>,
)
    requires
        inputs_without_newlines(results, attributes),
    ensures
        forall|i: int|
            0 <= i < output_lines(results, attributes).len() ==> no_newline(
                #[trigger] output_lines(results, attributes)[i],
            ),
{
    if results.len() > 0 {
        lemma_literals_no_newline();
        let h = seq!["HEADER\tschema_id\tlabeled"@, "HEADER\tschema_version\t2.1"@];
        let m = first_shot_header_lines(attributes);
        let body = shot_lines(results[0]@);
        let en = seq!["END\t0"@];
        let rest = blocks_lines(results.skip(1));
        assert(no_newline(h[0]) && no_newline(h[1]));
        assert forall|i: int| 0 <= i < m.len() implies no_newline(#[trigger] m[i]) by {
            if i >= 2 {
                let (k, d) = if i == 2 {
                    ("qir_profiles"@, "base_profile"@)
                } else if i == 3 {
                    ("required_num_qubits"@, "0"@)
                } else {
                    ("required_num_results"@, "0"@)
                };
                assert(m[i] == metadata_line_of(attributes, k, d));
                assert(no_newline(metadata_value(attributes, k, d)));
                lemma_no_newline_concat("METADATA\t"@, k);
                lemma_no_newline_concat("METADATA\t"@ + k, "\t"@);
                lemma_no_newline_concat("METADATA\t"@ + k + "\t"@, metadata_value(attributes, k, d));
            }
        }
        assert forall|j: int| 0 <= j < results[0]@.len() implies no_newline(
            #[trigger] results[0]@[j].0@,
        ) && value_displays_no_newline(results[0]@[j].1) by {
        }
        lemma_shot_lines_no_newline(results[0]@);
        assert forall|i: int, j: int|
            0 <= i < results.skip(1).len() && 0 <= j < results.skip(1)[i]@.len() implies no_newline(
            #[trigger] results.skip(1)[i]@[j].0@,
        ) && value_displays_no_newline(results.skip(1)[i]@[j].1) by {
            assert(results.skip(1)[i] == results[i + 1]);
        }
        lemma_blocks_no_newline(results.skip(1));
        assert(no_newline(en[0]));
        lemma_lines_no_newline_concat(h, m);
        lemma_lines_no_newline_concat(h + m, body);
        lemma_lines_no_newline_concat(h + m + body, en);
        lemma_lines_no_newline_concat(h + m + body + en, rest);
    }
}

} // verus!
