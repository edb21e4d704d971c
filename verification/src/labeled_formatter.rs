//! Rendering of shot results in the QIR output specification's "labeled" schema.

use vstd::hash_map::StringHashMap;
use vstd::prelude::*;
use vstd::string::{StrSliceExecFns, StringExecFns};

use crate::text::{find_char, has_prefix, is_first_index, split_once_at, starts_with, str_eq};
use crate::value::{float_is_zero, scalar_text, QShotValType, QsysShotItemValue};

verus! {

/// A named value of a shot: the name is `<kind>:<raw type>:<tag>`.
pub type QsysShotItem = (String, QsysShotItemValue);

/// All named values of one shot, in order.
pub type QsysShot = Vec<QsysShotItem>;

/// The shots of a job, in order.
pub type QsysShots = Vec<QsysShot>;

/// Job attributes reported in the first shot's metadata, keyed by name.
pub type QirMetadata = StringHashMap<String>;

/// A concrete output buffer with a malformed-value count.
pub struct QirOutput {
    pub text: String,
    pub malformed: usize,
}

impl Default for QirOutput {
    fn default() -> (r: Self)
        ensures
            r.text@ == Seq::<char>::empty(),
            r.malformed == 0,
    {
        QirOutput { text: String::new(), malformed: 0 }
    }
}

/// How a value is to be rendered for a given QIR type.
pub enum FormattedValue {
    /// The value's own text is used.
    Original,
    /// The value is rendered as this text.
    Text(String),
    /// The value cannot be rendered for the type.
    Invalid,
}

/// The mathematical content of a [`FormattedValue`].
pub enum Formatted {
    Original,
    Text(Seq<char>),
    Invalid,
}

impl View for FormattedValue {
    type V = Formatted;

    open spec fn view(&self) -> Formatted {
        match self {
            FormattedValue::Original => Formatted::Original,
            FormattedValue::Text(t) => Formatted::Text(t@),
            FormattedValue::Invalid => Formatted::Invalid,
        }
    }
}

/// The view of an optional string slice.
pub open spec fn opt_view(o: Option<&str>) -> Option<Seq<char>> {
    match o {
        Some(s) => Some(s@),
        None => None,
    }
}

/// The character that a result-array element contributes: `0` for `false`
/// or 0, `1` for `true` or 1; any other element has none.
pub open spec fn result_bit(v: QShotValType) -> Option<char> {
    match v {
        QShotValType::Bool(b) => Some(if b { '1' } else { '0' }),
        QShotValType::Int(i) => if i == 0 {
            Some('0')
        } else if i == 1 {
            Some('1')
        } else {
            None
        },
        QShotValType::Float(_) => None,
    }
}

/// The binary string of a result array, if every element is a bit.
pub open spec fn result_array_text(vs: Seq<QShotValType>) -> Option<Seq<char>> {
    if forall|i: int| 0 <= i < vs.len() ==> (#[trigger] result_bit(vs[i])) is Some {
        Some(Seq::new(vs.len(), |i: int| result_bit(vs[i])->0))
    } else {
        None
    }
}

/// Whether a value counts as true when it is rendered as a `BOOL`.
pub open spec fn truthy(val: QsysShotItemValue) -> bool {
    match val {
        QsysShotItemValue::Scalar(QShotValType::Bool(b)) => b,
        QsysShotItemValue::Scalar(QShotValType::Int(i)) => i != 0,
        QsysShotItemValue::Scalar(QShotValType::Float(f)) => !float_is_zero(f.bits),
        QsysShotItemValue::List(vs) => vs@.len() > 0,
        QsysShotItemValue::Invalid => false,
    }
}

/// How a value is formatted for a QIR type: a `RESULT_ARRAY` must be a list
/// of bits, a `BOOL` becomes `true` or `false`, any other type keeps the
/// value's own text.
pub open spec fn format_spec(type_str: Seq<char>, val: QsysShotItemValue) -> Formatted {
    if type_str == "RESULT_ARRAY"@ {
        match val {
            QsysShotItemValue::List(vs) => match result_array_text(vs@) {
                Some(t) => Formatted::Text(t),
                None => Formatted::Invalid,
            },
            _ => Formatted::Invalid,
        }
    } else if type_str == "BOOL"@ {
        Formatted::Text(if truthy(val) { "true"@ } else { "false"@ })
    } else {
        Formatted::Original
    }
}

/// The QIR type that a raw type is reported as, if it is reported at all.
pub open spec fn qir_type_of(ftype: Seq<char>) -> Option<Seq<char>> {
    if ftype == "INT"@ || ftype == "UINT"@ {
        Some("INT"@)
    } else if ftype == "FLOAT"@ {
        Some("DOUBLE"@)
    } else if ftype == "BOOL"@ || ftype == "RESULT"@ || ftype == "RESULT_ARRAY"@ {
        Some(ftype)
    } else if ftype == "QIRARRAY"@ {
        Some("ARRAY"@)
    } else if ftype == "QIRTUPLE"@ {
        Some("TUPLE"@)
    } else {
        None
    }
}

/// The texts of a list's elements, separated by `, `.
pub open spec fn list_text(vs: Seq<QShotValType>) -> Seq<char>
    decreases vs.len(),
{
    if vs.len() == 0 {
        Seq::empty()
    } else if vs.len() == 1 {
        scalar_text(vs[0])
    } else {
        list_text(vs.drop_last()) + ", "@ + scalar_text(vs.last())
    }
}

/// The own text of a value: a scalar's text, or a list in square brackets.
pub open spec fn value_text(val: QsysShotItemValue) -> Option<Seq<char>> {
    match val {
        QsysShotItemValue::Scalar(v) => Some(scalar_text(v)),
        QsysShotItemValue::List(vs) => Some("["@ + list_text(vs@) + "]"@),
        QsysShotItemValue::Invalid => None,
    }
}

/// The text a value is rendered as for a QIR type, if it can be rendered.
pub open spec fn rendered_text(qir_type: Seq<char>, val: QsysShotItemValue) -> Option<Seq<char>> {
    match format_spec(qir_type, val) {
        Formatted::Text(t) => Some(t),
        Formatted::Original => value_text(val),
        Formatted::Invalid => None,
    }
}

/// A tag is present and the value is not invalid.
pub open spec fn tag_and_value_valid(tag: Option<Seq<char>>, val: QsysShotItemValue) -> bool {
    tag is Some && !(val is Invalid)
}

/// One output record.
pub open spec fn record_text(qir_type: Seq<char>, text: Seq<char>, tag: Seq<char>) -> Seq<char> {
    "OUTPUT\t"@ + qir_type + "\t"@ + text + "\t"@ + tag + "\n"@
}

/// The value is of a reported type but cannot be rendered for it.
pub open spec fn emit_malformed(ftype: Seq<char>, val: QsysShotItemValue) -> bool {
    match qir_type_of(ftype) {
        Some(q) => rendered_text(q, val) is None,
        None => false,
    }
}

/// What emitting a value appends to the output text: one record when the
/// raw type is reported, the value can be rendered, and tag and value are
/// valid; nothing otherwise.
pub open spec fn emit_text(ftype: Seq<char>, tag: Option<Seq<char>>, val: QsysShotItemValue) -> Seq<
    char,
> {
    match qir_type_of(ftype) {
        Some(q) => match rendered_text(q, val) {
            Some(t) => if tag_and_value_valid(tag, val) {
                record_text(q, t, tag->0)
            } else {
                Seq::empty()
            },
            None => Seq::empty(),
        },
        None => Seq::empty(),
    }
}

/// The raw type and tag of a user value's name `USER:<raw type>:<tag>`,
/// split at the first `:` after the prefix.
pub open spec fn user_field(name: Seq<char>) -> Option<(Seq<char>, Seq<char>)> {
    if has_prefix(name, "USER:"@) {
        split_once_at(name.skip("USER:"@.len() as int), ':')
    } else {
        None
    }
}

/// What one named value of a shot appends to the output text.
pub open spec fn item_text(item: QsysShotItem) -> Seq<char> {
    match user_field(item.0@) {
        Some((ftype, tag)) => emit_text(ftype, Some(tag), item.1),
        None => Seq::empty(),
    }
}

/// One named value of a shot is malformed.
pub open spec fn item_malformed(item: QsysShotItem) -> bool {
    match user_field(item.0@) {
        Some((ftype, _)) => emit_malformed(ftype, item.1),
        None => false,
    }
}

/// What the user values of a shot append to the output text.
pub open spec fn shot_text(items: Seq<QsysShotItem>) -> Seq<char>
    decreases items.len(),
{
    if items.len() == 0 {
        Seq::empty()
    } else {
        shot_text(items.drop_last()) + item_text(items.last())
    }
}

/// How many user values of a shot are malformed.
pub open spec fn shot_malformed(items: Seq<QsysShotItem>) -> nat
    decreases items.len(),
{
    if items.len() == 0 {
        0
    } else {
        shot_malformed(items.drop_last()) + if item_malformed(items.last()) {
            1nat
        } else {
            0nat
        }
    }
}

/// The results header.
pub open spec fn results_header_text() -> Seq<char> {
    "HEADER\tschema_id\tlabeled\n"@ + "HEADER\tschema_version\t2.1\n"@
}

/// The closing shot boundary.
pub open spec fn shot_footer_text() -> Seq<char> {
    "END\t0\n"@
}

/// The opening shot boundary of a shot that is not the first.
pub open spec fn shot_start_text() -> Seq<char> {
    "START\n"@
}

/// The value of a metadata key: the attribute if present, else the default.
pub open spec fn metadata_value(
    attributes: Map<Seq<char>, String>,
    key: Seq<char>,
    default: Seq<char>,
) -> Seq<char> {
    if attributes.contains_key(key) {
        attributes[key]@
    } else {
        default
    }
}

/// One metadata line.
pub open spec fn metadata_line(
    attributes: Map<Seq<char>, String>,
    key: Seq<char>,
    default: Seq<char>,
) -> Seq<char> {
    "METADATA\t"@ + key + "\t"@ + metadata_value(attributes, key, default) + "\n"@
}

/// The opening boundary of the first shot, with the job's metadata.
pub open spec fn first_shot_header_text(attributes: Map<Seq<char>, String>) -> Seq<char> {
    "START\n"@ + "METADATA\tentry_point\n"@ + metadata_line(
        attributes,
        "qir_profiles"@,
        "base_profile"@,
    ) + metadata_line(attributes, "required_num_qubits"@, "0"@) + metadata_line(
        attributes,
        "required_num_results"@,
        "0"@,
    )
}

/// A shot that is not the first, with its boundaries.
pub open spec fn shot_block_text(shot: Seq<QsysShotItem>) -> Seq<char> {
    shot_start_text() + shot_text(shot) + shot_footer_text()
}

/// The first shot, with its boundaries and the job's metadata.
pub open spec fn first_shot_block_text(
    shot: Seq<QsysShotItem>,
    attributes: Map<Seq<char>, String>,
) -> Seq<char> {
    first_shot_header_text(attributes) + shot_text(shot) + shot_footer_text()
}

/// Shots that are not the first, one block after the other.
pub open spec fn shot_blocks_text(shots: Seq<QsysShot>) -> Seq<char>
    decreases shots.len(),
{
    if shots.len() == 0 {
        Seq::empty()
    } else {
        shot_blocks_text(shots.drop_last()) + shot_block_text(shots.last()@)
    }
}

/// The whole labeled output of a job's results: nothing when there are no
/// shots, else the header, the first shot with metadata, and every further shot.
pub open spec fn results_text(results: Seq<QsysShot>, attributes: Map<Seq<char>, String>) -> Seq<
    char,
> {
    if results.len() == 0 {
        Seq::empty()
    } else {
        results_header_text() + first_shot_block_text(results[0]@, attributes) + shot_blocks_text(
            results.skip(1),
        )
    }
}

/// How many user values of a job's results are malformed.
pub open spec fn results_malformed(results: Seq<QsysShot>) -> nat
    decreases results.len(),
{
    if results.len() == 0 {
        0
    } else {
        results_malformed(results.drop_last()) + shot_malformed(results.last()@)
    }
}

proof fn lemma_shot_malformed_prefix(items: Seq<QsysShotItem>, i: int)
    requires
        0 <= i <= items.len(),
    ensures
        shot_malformed(items.take(i)) <= shot_malformed(items),
    decreases items.len() - i,
{
    if i < items.len() {
        lemma_shot_malformed_prefix(items, i + 1);
        assert(items.take(i + 1).drop_last() =~= items.take(i));
    } else {
        assert(items.take(i) =~= items);
    }
}

proof fn lemma_results_malformed_prefix(results: Seq<QsysShot>, i: int)
    requires
        0 <= i <= results.len(),
    ensures
        results_malformed(results.take(i)) <= results_malformed(results),
    decreases results.len() - i,
{
    if i < results.len() {
        lemma_results_malformed_prefix(results, i + 1);
        assert(results.take(i + 1).drop_last() =~= results.take(i));
    } else {
        assert(results.take(i) =~= results);
    }
}

/// The character that a result-array element contributes, if any.
fn result_bit_of(v: &QShotValType) -> (r: Option<char>)
    ensures
        r == result_bit(*v),
{
    match v {
        QShotValType::Bool(b) => Some(if *b { '1' } else { '0' }),
        QShotValType::Int(i) => if *i == 0 {
            Some('0')
        } else if *i == 1 {
            Some('1')
        } else {
            None
        },
        QShotValType::Float(_) => None,
    }
}

/// The binary string of a result array, if every element is a bit.
fn result_array_bits(vs: &Vec<QShotValType>) -> (r: Option<String>)
    ensures
        match r {
            Some(s) => result_array_text(vs@) == Some(s@),
            None => result_array_text(vs@) is None,
        },
{
    let mut out = String::new();
    let n = vs.len();
    let mut i: usize = 0;
    while i < n
        invariant
            n == vs@.len(),
            i <= n,
            forall|j: int| 0 <= j < i ==> (#[trigger] result_bit(vs@[j])) is Some,
            out@ == Seq::new(i as nat, |j: int| result_bit(vs@[j])->0),
        decreases n - i,
    {
        match result_bit_of(&vs[i]) {
            Some(c) => {
                out.push(c);
                assert(out@ =~= Seq::new((i + 1) as nat, |j: int| result_bit(vs@[j])->0));
            },
            None => {
                assert(!(result_bit(vs@[i as int]) is Some));
                return None;
            },
        }
        i = i + 1;
    }
    assert(out@ =~= Seq::new(vs@.len(), |j: int| result_bit(vs@[j])->0));
    Some(out)
}

/// Whether a value counts as true when rendered as a `BOOL`.
fn is_truthy(val: &QsysShotItemValue) -> (r: bool)
    ensures
        r == truthy(*val),
{
    match val {
        QsysShotItemValue::Scalar(QShotValType::Bool(b)) => *b,
        QsysShotItemValue::Scalar(QShotValType::Int(i)) => *i != 0,
        QsysShotItemValue::Scalar(QShotValType::Float(f)) => !f.is_zero(),
        QsysShotItemValue::List(vs) => vs.len() > 0,
        QsysShotItemValue::Invalid => false,
    }
}

/// The QIR type that a raw type is reported as, if any.
pub fn qir_type<'a>(ftype: &'a str) -> (r: Option<&'a str>)
    ensures
        match r {
            Some(q) => qir_type_of(ftype@) == Some(q@),
            None => qir_type_of(ftype@) is None,
        },
{
    if str_eq(ftype, "INT") || str_eq(ftype, "UINT") {
        Some("INT")
    } else if str_eq(ftype, "FLOAT") {
        Some("DOUBLE")
    } else if str_eq(ftype, "BOOL") || str_eq(ftype, "RESULT") || str_eq(ftype, "RESULT_ARRAY") {
        Some(ftype)
    } else if str_eq(ftype, "QIRARRAY") {
        Some("ARRAY")
    } else if str_eq(ftype, "QIRTUPLE") {
        Some("TUPLE")
    } else {
        None
    }
}

/// Appends the texts of a list's elements, separated by `, `.
fn push_list_text(out: &mut String, vs: &Vec<QShotValType>)
    ensures
        final(out)@ == old(out)@ + list_text(vs@),
{
    let n = vs.len();
    let mut i: usize = 0;
    while i < n
        invariant
            n == vs@.len(),
            i <= n,
            out@ == old(out)@ + list_text(vs@.take(i as int)),
        decreases n - i,
    {
        let ghost before = out@;
        if i > 0 {
            out.append(", ");
        }
        let t = vs[i].text();
        out.append(t.as_str());
        assert(vs@.take(i + 1).drop_last() =~= vs@.take(i as int));
        assert(out@ =~= old(out)@ + list_text(vs@.take(i + 1)));
        i = i + 1;
    }
    assert(vs@.take(n as int) =~= vs@);
}

/// The raw type and tag of a user value's name, if it is one.
pub fn user_field_of<'a>(name: &'a str) -> (r: Option<(&'a str, &'a str)>)
    ensures
        match r {
            Some((f, t)) => user_field(name@) == Some((f@, t@)),
            None => user_field(name@) is None,
        },
{
    let prefix = "USER:";
    if !starts_with(name, prefix) {
        return None;
    }
    let p = prefix.unicode_len();
    let len = name.unicode_len();
    let rest = name.substring_char(p, len);
    assert(rest@ =~= name@.skip(p as int));
    let rest_len = rest.unicode_len();
    match find_char(rest, ':') {
        Some(k) => {
            let ftype = rest.substring_char(0, k);
            let tag = rest.substring_char(k + 1, rest_len);
            proof {
                let c = choose|j: int| is_first_index(rest@, ':', j);
                assert(is_first_index(rest@, ':', k as int));
                assert(c == k as int) by {
                    if c < k {
                        assert(rest@[c] != ':');
                    } else if c > k {
                        assert(rest@[k as int] != ':');
                    }
                }
                assert(ftype@ =~= rest@.take(k as int));
                assert(tag@ =~= rest@.skip(k + 1));
            }
            Some((ftype, tag))
        },
        None => {
            assert(!exists|j: int| is_first_index(rest@, ':', j));
            None
        },
    }
}

/// Appends one metadata line, taking the value from the attributes or the default.
fn push_metadata_line(out: &mut String, attributes: &QirMetadata, key: &str, default: &str)
    ensures
        final(out)@ == old(out)@ + metadata_line(attributes@, key@, default@),
{
    out.append("METADATA\t");
    out.append(key);
    out.append("\t");
    match attributes.get(key) {
        Some(v) => out.append(v.as_str()),
        None => out.append(default),
    }
    out.append("\n");
}

/// Formatter for QIR Output Spec results.
pub struct QirLabeledFormatter;

impl Default for QirLabeledFormatter {
    fn default() -> (r: Self)
        ensures
            r == QirLabeledFormatter,
    {
        QirLabeledFormatter
    }
}

impl QirLabeledFormatter {
    /// A formatter.
    pub fn new() -> (r: Self)
        ensures
            r == QirLabeledFormatter,
    {
        QirLabeledFormatter
    }

    /// No null tags or null values allowed (empty strings permitted for tags)
    pub fn _val_null(&self, tag: Option<&str>, val: &QsysShotItemValue) -> (r: bool)
        ensures
            r == (tag is Some && !(*val is Invalid)),
    {
        match (tag, val) {
            (Some(_), QsysShotItemValue::Invalid) => false,
            (Some(_), _) => true,
            (None, _) => false,
        }
    }

    /// Tag must be a string
    pub fn _val_tag_type(&self, tag: Option<&str>, _val: &QsysShotItemValue) -> (r: bool)
        ensures
            r == tag is Some,
    {
        tag.is_some()
    }

    /// Ensure the tag and value are valid values
    pub fn validate_tag_and_value(&self, tag: Option<&str>, val: &QsysShotItemValue) -> (r: bool)
        ensures
            r == tag_and_value_valid(opt_view(tag), *val),
    {
        self._val_tag_type(tag, val) && self._val_null(tag, val)
    }

    /// Emit results header.
    pub fn results_header(&self, qo: &mut QirOutput)
        ensures
            final(qo).text@ == old(qo).text@ + results_header_text(),
            final(qo).malformed == old(qo).malformed,
    {
        qo.text.append("HEADER\tschema_id\tlabeled\n");
        qo.text.append("HEADER\tschema_version\t2.1\n");
    }

    /// Emit opening shot boundary header.
    pub fn first_shot_header(&self, qo: &mut QirOutput, attributes: &QirMetadata)
        ensures
            final(qo).text@ == old(qo).text@ + first_shot_header_text(attributes@),
            final(qo).malformed == old(qo).malformed,
    {
        qo.text.append("START\n");
        qo.text.append("METADATA\tentry_point\n");
        push_metadata_line(&mut qo.text, attributes, "qir_profiles", "base_profile");
        push_metadata_line(&mut qo.text, attributes, "required_num_qubits", "0");
        push_metadata_line(&mut qo.text, attributes, "required_num_results", "0");
    }

    /// Emit closing shot boundary footer.
    pub fn shot_footer(&self, qo: &mut QirOutput)
        ensures
            final(qo).text@ == old(qo).text@ + shot_footer_text(),
            final(qo).malformed == old(qo).malformed,
    {
        qo.text.append("END\t0\n");
    }

    /// Format the value if required
    pub fn format_value(&self, type_str: &str, val: &QsysShotItemValue) -> (r: FormattedValue)
        ensures
            r@ == format_spec(type_str@, *val),
    {
        if str_eq(type_str, "RESULT_ARRAY") {
            match val {
                QsysShotItemValue::List(vs) => match result_array_bits(vs) {
                    Some(bits) => FormattedValue::Text(bits),
                    None => FormattedValue::Invalid,
                },
                _ => FormattedValue::Invalid,
            }
        } else if str_eq(type_str, "BOOL") {
            // For BOOLs, the L4 API will always return 0 or 1
            let mut t = String::new();
            if is_truthy(val) {
                t.append("true");
            } else {
                t.append("false");
            }
            FormattedValue::Text(t)
        } else {
            FormattedValue::Original
        }
    }

    /// Emit a value with of the given type and tag.
    pub fn emit(&self, qo: &mut QirOutput, ftype: &str, tag: Option<&str>, val: &QsysShotItemValue)
        requires
            emit_malformed(ftype@, *val) ==> old(qo).malformed < usize::MAX,
        ensures
            final(qo).text@ == old(qo).text@ + emit_text(ftype@, opt_view(tag), *val),
            final(qo).malformed == old(qo).malformed + if emit_malformed(ftype@, *val) {
                1int
            } else {
                0int
            },
    {
        // Conversion of internal raw data type to QIR type
        let qir = match qir_type(ftype) {
            Some(q) => q,
            None => return ,
        };
        let text: Option<String> = match self.format_value(qir, val) {
            FormattedValue::Text(t) => Some(t),
            FormattedValue::Original => match val {
                QsysShotItemValue::Scalar(v) => Some(v.text()),
                QsysShotItemValue::List(vs) => {
                    let mut t = String::new();
                    t.append("[");
                    push_list_text(&mut t, vs);
                    t.append("]");
                    Some(t)
                },
                QsysShotItemValue::Invalid => None,
            },
            FormattedValue::Invalid => None,
        };
        match text {
            None => {
                qo.malformed = qo.malformed + 1;
            },
            Some(text) => {
                if self.validate_tag_and_value(tag, val) {
                    let t = tag.unwrap();
                    qo.text.append("OUTPUT\t");
                    qo.text.append(qir);
                    qo.text.append("\t");
                    qo.text.append(text.as_str());
                    qo.text.append("\t");
                    qo.text.append(t);
                    qo.text.append("\n");
                }
            },
        }
    }

    /// Given a shot, check the format and emit each user value
    pub fn emit_values_in_shot(&self, qo: &mut QirOutput, shot: &QsysShot)
        requires
            old(qo).malformed + shot_malformed(shot@) <= usize::MAX,
        ensures
            final(qo).text@ == old(qo).text@ + shot_text(shot@),
            final(qo).malformed == old(qo).malformed + shot_malformed(shot@),
    {
        let n = shot.len();
        let mut i: usize = 0;
        while i < n
            invariant
                n == shot@.len(),
                i <= n,
                old(qo).malformed + shot_malformed(shot@) <= usize::MAX,
                qo.text@ == old(qo).text@ + shot_text(shot@.take(i as int)),
                qo.malformed == old(qo).malformed + shot_malformed(shot@.take(i as int)),
            decreases n - i,
        {
            proof {
                lemma_shot_malformed_prefix(shot@, i + 1);
                assert(shot@.take(i + 1).drop_last() =~= shot@.take(i as int));
            }
            let name: &str = shot[i].0.as_str();
            match user_field_of(name) {
                Some((ftype, tag)) => {
                    self.emit(qo, ftype, Some(tag), &shot[i].1);
                },
                None => {},
            }
            assert(qo.text@ =~= old(qo).text@ + shot_text(shot@.take(i + 1)));
            i = i + 1;
        }
        assert(shot@.take(n as int) =~= shot@);
    }

    /// Format the user defined output from shots
    pub fn write_shot(&self, qo: &mut QirOutput, shot: &QsysShot)
        requires
            old(qo).malformed + shot_malformed(shot@) <= usize::MAX,
        ensures
            final(qo).text@ == old(qo).text@ + shot_block_text(shot@),
            final(qo).malformed == old(qo).malformed + shot_malformed(shot@),
    {
        qo.text.append("START\n");
        self.emit_values_in_shot(qo, shot);
        self.shot_footer(qo);
    }

    /// Write the first shot, which includes extra metadata
    pub fn write_first_shot(&self, qo: &mut QirOutput, shot: &QsysShot, attributes: &QirMetadata)
        requires
            old(qo).malformed + shot_malformed(shot@) <= usize::MAX,
        ensures
            final(qo).text@ == old(qo).text@ + first_shot_block_text(shot@, attributes@),
            final(qo).malformed == old(qo).malformed + shot_malformed(shot@),
    {
        self.first_shot_header(qo, attributes);
        self.emit_values_in_shot(qo, shot);
        self.shot_footer(qo);
    }

    /// Writes the header, the first shot with its metadata, and every further
    /// shot; writes nothing when there are no shots.
    pub fn write_results(&self, qo: &mut QirOutput, results: &[QsysShot], attributes: &QirMetadata)
        requires
            old(qo).malformed + results_malformed(results@) <= usize::MAX,
        ensures
            final(qo).text@ == old(qo).text@ + results_text(results@, attributes@),
            final(qo).malformed == old(qo).malformed + results_malformed(results@),
    {
        let n = results.len();
        if n == 0 {
            return ;
        }
        proof {
            lemma_results_malformed_prefix(results@, 1);
            assert(results@.take(1).drop_last() =~= Seq::<QsysShot>::empty());
            assert(results@.take(1).last() == results@[0]);
            assert(results_malformed(Seq::<QsysShot>::empty()) == 0);
            assert(results_malformed(results@.take(1)) == shot_malformed(results@[0]@));
        }
        self.results_header(qo);
        self.write_first_shot(qo, &results[0], attributes);
        let ghost start = qo.text@;
        assert(results@.subrange(1, 1) =~= Seq::<QsysShot>::empty());
        let mut i: usize = 1;
        while i < n
            invariant
                n == results@.len(),
                1 <= i <= n,
                old(qo).malformed + results_malformed(results@) <= usize::MAX,
                start == old(qo).text@ + results_header_text() + first_shot_block_text(
                    results@[0]@,
                    attributes@,
                ),
                qo.text@ == start + shot_blocks_text(results@.subrange(1, i as int)),
                qo.malformed == old(qo).malformed + results_malformed(results@.take(i as int)),
            decreases n - i,
        {
            proof {
                lemma_results_malformed_prefix(results@, i + 1);
                assert(results@.take(i + 1).drop_last() =~= results@.take(i as int));
                assert(results@.subrange(1, i + 1).drop_last() =~= results@.subrange(1, i as int));
            }
            self.write_shot(qo, &results[i]);
            assert(qo.text@ =~= start + shot_blocks_text(results@.subrange(1, i + 1)));
            i = i + 1;
        }
        assert(results@.take(n as int) =~= results@);
        assert(results@.subrange(1, n as int) =~= results@.skip(1));
    }

    /// Given a list of results associated with an `n_qubits` job, return
    /// the results in QIR "Labeled" Output Schema format.
    pub fn qir_labeled_output(&self, results: &[QsysShot], attributes: &QirMetadata) -> (r: String)
        requires
            results_malformed(results@) <= usize::MAX,
        ensures
            r@ == results_text(results@, attributes@),
    {
        let mut output = QirOutput::default();
        self.write_results(&mut output, results, attributes);
        output.text
    }
}

} // verus!
