//! Test the QIR results formatter

use qir_formatter::{
    FloatValue, FormattedValue, QShotValType, QirLabeledFormatter, QirMetadata, QirOutput,
    QsysShot, QsysShotItem, QsysShotItemValue, QsysShots,
};
use QShotValType::{Bool, Int};
use QsysShotItemValue::{Invalid, List, Scalar};

#[allow(non_snake_case)]
fn Float(x: f64) -> QShotValType {
    QShotValType::Float(FloatValue { bits: x.to_bits(), display: x.to_string() })
}

fn shot(items: Vec<(&str, QsysShotItemValue)>) -> QsysShot {
    items
        .into_iter()
        .map(|(tag, value)| (tag.to_string(), value))
        .collect()
}

fn metadata(pairs: &[(&str, &str)]) -> QirMetadata {
    let mut m = QirMetadata::new();
    for (k, v) in pairs {
        m.insert(k.to_string(), v.to_string());
    }
    m
}

const GOOD1: &str = "HEADER\tschema_id\tlabeled\n\
HEADER\tschema_version\t2.1\n\
START\n\
METADATA\tentry_point\n\
METADATA\tqir_profiles\tbase_profile\n\
METADATA\trequired_num_qubits\t9\n\
METADATA\trequired_num_results\t9\n\
OUTPUT\tINT\t42\ti1\n\
OUTPUT\tBOOL\ttrue\tb1\n\
END\t0\n\
START\n\
OUTPUT\tRESULT\t99\tr1\n\
OUTPUT\tINT\t-54321\ti2\n\
OUTPUT\tDOUBLE\t2.718281828459045\tf1\n\
END\t0\n\
START\n\
OUTPUT\tDOUBLE\t3.141592653589793\t\u{3c6}\n\
OUTPUT\tINT\t9223372036854775807\tlarge\n\
OUTPUT\tINT\t-9223372036854775808\tneg\n\
END\t0\n\
START\n\
OUTPUT\tRESULT_ARRAY\t1011\tresults\n\
END\t0\n\
START\n\
OUTPUT\tARRAY\t2\t0_a\n\
OUTPUT\tTUPLE\t2\t1_a0t\n\
OUTPUT\tINT\t42\t2_a0t0i\n\
OUTPUT\tRESULT\t0\t3_a0t1r\n\
OUTPUT\tTUPLE\t2\t4_a1t\n\
OUTPUT\tINT\t33\t5_a1t0i\n\
OUTPUT\tRESULT\t1\t6_a1t1r\n\
END\t0\n";

const FULL1: &str = "HEADER\tschema_id\tlabeled\n\
HEADER\tschema_version\t2.1\n\
START\n\
METADATA\tentry_point\n\
METADATA\tqir_profiles\tbase_profile\n\
METADATA\trequired_num_qubits\t9\n\
METADATA\trequired_num_results\t3\n\
OUTPUT\tINT\t3\treg1\n\
OUTPUT\tDOUBLE\t1.43\treg2\n\
OUTPUT\tINT\t1\treg:3\n\
END\t0\n\
START\n\
OUTPUT\tINT\t9\treg1\n\
END\t0\n\
START\n\
OUTPUT\tINT\t-2\treg1\n\
END\t0\n";

const MISSING_ATTRIBUTES: &str = "HEADER\tschema_id\tlabeled\n\
HEADER\tschema_version\t2.1\n\
START\n\
METADATA\tentry_point\n\
METADATA\tqir_profiles\tbase_profile\n\
METADATA\trequired_num_qubits\t0\n\
METADATA\trequired_num_results\t0\n\
OUTPUT\tINT\t3\treg1\n\
OUTPUT\tDOUBLE\t1.43\treg2\n\
OUTPUT\tINT\t1\treg:3\n\
END\t0\n\
START\n\
OUTPUT\tINT\t9\treg1\n\
END\t0\n\
START\n\
OUTPUT\tINT\t-2\treg1\n\
END\t0\n";

const MALFORMED1: &str = "HEADER\tschema_id\tlabeled\n\
HEADER\tschema_version\t2.1\n\
START\n\
METADATA\tentry_point\n\
METADATA\tqir_profiles\tbase_profile\n\
METADATA\trequired_num_qubits\t9\n\
METADATA\trequired_num_results\t9\n\
OUTPUT\tINT\t3\treg1\n\
OUTPUT\tDOUBLE\t1.43\treg2\n\
OUTPUT\tBOOL\ttrue\t\n\
END\t0\n";

/// Test raw data types that are rendered to QIR output.
#[test]
fn test_formatting() {
    for (ftype, tag, value, expected) in [
        ("INT", "i0", Scalar(Int(42)), "OUTPUT\tINT\t42\ti0\n"),
        ("UINT", "ui0", Scalar(Int(99)), "OUTPUT\tINT\t99\tui0\n"),
        (
            "FLOAT",
            "f0",
            Scalar(Float(3.1415926)),
            "OUTPUT\tDOUBLE\t3.1415926\tf0\n",
        ),
        ("BOOL", "b0", Scalar(Int(0)), "OUTPUT\tBOOL\tfalse\tb0\n"),
        ("RESULT", "r0", Scalar(Int(0)), "OUTPUT\tRESULT\t0\tr0\n"),
        (
            "RESULT_ARRAY",
            "ra0",
            List(vec![Int(1), Int(0), Int(1)]),
            "OUTPUT\tRESULT_ARRAY\t101\tra0\n",
        ),
        ("QIRARRAY", "a0", Scalar(Int(4)), "OUTPUT\tARRAY\t4\ta0\n"),
        ("QIRTUPLE", "t0", Scalar(Int(13)), "OUTPUT\tTUPLE\t13\tt0\n"),
    ] {
        let mut output = QirOutput::default();
        QirLabeledFormatter::new().emit(&mut output, ftype, Some(tag), &value);
        assert_eq!(output.text, expected, "{ftype}");
    }
}

/// Test complete formatting of a valid list of raw results.
#[test]
fn test_result_list() {
    // 5 shots of a variety of results
    let results = vec![
        shot(vec![
            ("USER:INT:i1", Scalar(Int(42))),
            ("USER:BOOL:b1", Scalar(Int(1))),
        ]),
        shot(vec![
            ("USER:RESULT:r1", Scalar(Int(99))),
            ("USER:INT:i2", Scalar(Int(-54321))),
            ("USER:FLOAT:f1", Scalar(Float(std::f64::consts::E))),
        ]),
        shot(vec![
            ("USER:FLOAT:\u{3c6}", Scalar(Float(std::f64::consts::PI))),
            ("USER:INT:large", Scalar(Int(i64::MAX))),
            ("USER:INT:neg", Scalar(Int(i64::MIN))),
        ]),
        shot(vec![(
            "USER:RESULT_ARRAY:results",
            List(vec![Int(1), Int(0), Int(1), Int(1)]),
        )]),
        shot(vec![
            ("USER:QIRARRAY:0_a", Scalar(Int(2))),
            ("USER:QIRTUPLE:1_a0t", Scalar(Int(2))),
            ("USER:INT:2_a0t0i", Scalar(Int(42))),
            ("USER:RESULT:3_a0t1r", Scalar(Int(0))),
            ("USER:QIRTUPLE:4_a1t", Scalar(Int(2))),
            ("USER:INT:5_a1t0i", Scalar(Int(33))),
            ("USER:RESULT:6_a1t1r", Scalar(Int(1))),
        ]),
    ];
    let attributes = metadata(&[
        ("qir_profiles", "base_profile"),
        ("required_num_qubits", "9"),
        ("required_num_results", "9"),
    ]);
    assert_eq!(
        QirLabeledFormatter::new().qir_labeled_output(&results, &attributes),
        GOOD1
    );
}

/// Test complete formatting of a valid list of raw results, with
/// some fields that are not rendered for QIR output.
#[test]
fn test_full_raw_result_list() {
    let results = vec![
        shot(vec![
            ("MEAS:BOOL:", Scalar(Int(1))),
            ("MEAS:BOOL:", Scalar(Int(1))),
            ("MEAS:BOOL:", Scalar(Int(0))),
            ("USER:INT:reg1", Scalar(Int(3))),
            ("USER:FLOAT:reg2", Scalar(Float(1.43))),
            ("USER:INT:reg:3", Scalar(Int(1))),
            ("METRICS:INT:SQ", Scalar(Int(12))),
            ("METRICS:INT:TQ", Scalar(Int(15))),
            ("METRICS:INT:SPAM", Scalar(Int(8))),
            ("METRICS:INT:NumQubits", Scalar(Int(4))),
            ("METRICS:FLOAT:ShotTime", Scalar(Float(0.0194))),
        ]),
        shot(vec![
            ("MEAS:BOOL:", Scalar(Int(0))),
            ("MEAS:BOOL:", Scalar(Int(1))),
            ("MEAS:BOOL:", Scalar(Int(0))),
            ("MEAS:BOOL:", Scalar(Int(1))),
            ("USER:INT:reg1", Scalar(Int(9))),
            ("MEAS:BOOL:", Scalar(Int(1))),
            ("MEAS:BOOL:", Scalar(Int(0))),
            ("USER:INTARR:reg3", List(vec![Int(5), Int(12)])),
            ("METRICS:INT:SQ", Scalar(Int(15))),
            ("METRICS:INT:TQ", Scalar(Int(19))),
            ("METRICS:INT:SPAM", Scalar(Int(12))),
            ("METRICS:FLOAT:ShotTime", Scalar(Float(0.0394))),
        ]),
        shot(vec![
            ("MEAS:BOOL:", Scalar(Int(1))),
            ("MEAS:BOOL:", Scalar(Int(1))),
            ("MEAS:BOOL:", Scalar(Int(1))),
            ("MEAS:BOOL:", Scalar(Int(1))),
            ("USER:INT:reg1", Scalar(Int(-2))),
            (
                "EXIT:INT:Unexpected results indicating deep flaw/exit",
                Scalar(Int(1000)),
            ),
            ("METRICS:INT:SQ", Scalar(Int(12))),
            ("METRICS:INT:TQ", Scalar(Int(15))),
            ("METRICS:INT:SPAM", Scalar(Int(8))),
            ("METRICS:FLOAT:ShotTime", Scalar(Float(0.0194))),
        ]),
    ];
    let attributes = metadata(&[
        ("qir_profiles", "base_profile"),
        ("required_num_qubits", "9"),
        ("required_num_results", "3"),
    ]);
    for (attributes, expected) in [
        (attributes, FULL1),
        (QirMetadata::new(), MISSING_ATTRIBUTES),
    ] {
        assert_eq!(
            QirLabeledFormatter::new().qir_labeled_output(&results, &attributes),
            expected
        );
    }
}

/// Test valid raw data types are ignored.
#[test]
fn test_ignored_types() {
    for ftype in ["BOOLARR", "INTARR", "UINTARR", "FLOATARR"] {
        let mut output = QirOutput::default();
        QirLabeledFormatter::new().emit(
            &mut output,
            ftype,
            Some("aggr"),
            &List(vec![Int(1), Int(1), Int(0)]),
        );
        assert!(output.text.is_empty(), "{ftype}");
        assert_eq!(output.malformed, 0);
    }
}

/// Test invalid raw data type.
#[test]
fn test_undefined_type() {
    let mut output = QirOutput::default();
    QirLabeledFormatter::new().emit(
        &mut output,
        "UINT32",
        Some("aggr"),
        &List(vec![Int(1), Int(1), Int(0)]),
    );
    assert!(output.text.is_empty());
}

/// Test improperly formatted raw data.
#[test]
fn test_malformed() {
    // Non-string tags and None values are represented by None and Invalid.
    for (ftype, tag, value) in [
        ("INT", None, Scalar(Int(0))),
        ("INT", Some("syndrome0"), Invalid),
        ("BOOL", None, Invalid),
        ("FLOAT", None, Scalar(Int(99))),
        ("", None, Invalid),
    ] {
        let mut output = QirOutput::default();
        QirLabeledFormatter::new().emit(&mut output, ftype, tag, &value);
        assert!(output.text.is_empty(), "{ftype}");
    }
}

/// Test complete formatting of a valid list of raw results, with
/// some malformed entries.
#[test]
fn test_malformed_raw_result_list() {
    let results = vec![shot(vec![
        ("USER:INT:reg1", Scalar(Int(3))),
        ("USER::reg3", Scalar(Float(1.414))),
        ("USER:RESULT:r1", Invalid),
        ("USER:FLOAT:reg2", Scalar(Float(1.43))),
        (":INT:i0", Scalar(Int(1))),
        ("::i0", Scalar(Int(1))),
        (":::", Scalar(Int(1))),
        ("::", Scalar(Int(0))),
        (":", Scalar(Int(0))),
        (":", Invalid),
        (":", Invalid),
        ("f", Invalid),
        ("f", Invalid),
        ("USER:BOOL:", Scalar(Int(1))),
    ])];
    let attributes = metadata(&[
        ("qir_profiles", "base_profile"),
        ("required_num_qubits", "9"),
        ("required_num_results", "9"),
    ]);
    assert_eq!(
        QirLabeledFormatter::new().qir_labeled_output(&results, &attributes),
        MALFORMED1
    );
}

/// Test empty tag submission produces output.
#[test]
fn test_empty_tag_submission() {
    let results = vec![shot(vec![
        ("USER:QIRARRAY:", Scalar(Int(2))),
        ("USER:QIRTUPLE:", Scalar(Int(2))),
    ])];
    let output = QirLabeledFormatter::new().qir_labeled_output(&results, &QirMetadata::new());
    // assert that the output still shows with ARRAY and TUPLE types
    assert!(output.contains("OUTPUT\tARRAY\t2\t\n"));
    assert!(output.contains("OUTPUT\tTUPLE\t2\t\n"));
}

/// Result arrays are emitted as a single binary string record.
#[test]
fn test_result_array_formatting() {
    for (value, expected) in [
        (vec![], ""),
        (vec![Bool(false), Bool(true), Bool(false)], "010"),
    ] {
        let mut output = QirOutput::default();
        QirLabeledFormatter::new().emit(
            &mut output,
            "RESULT_ARRAY",
            Some("results"),
            &List(value),
        );
        assert_eq!(
            output.text,
            format!("OUTPUT\tRESULT_ARRAY\t{expected}\tresults\n")
        );
    }
}

/// Malformed result arrays should not raise and should be ignored.
#[test]
fn test_malformed_result_array_is_ignored() {
    // None, 1, "010", [2], ["x"], and (1, 0, 1) after conversion to Rust values.
    for value in [
        Invalid,
        Scalar(Int(1)),
        Invalid,
        List(vec![Int(2)]),
        Invalid,
        Invalid,
    ] {
        let mut output = QirOutput::default();
        QirLabeledFormatter::new().emit(&mut output, "RESULT_ARRAY", Some("results"), &value);
        assert!(output.text.is_empty());
        assert_eq!(output.malformed, 1);
    }
}

#[test]
fn formats_scalar_types_and_empty_tags() {
    let formatter = QirLabeledFormatter::new();
    for (raw, value, expected) in [
        ("INT", Int(42), "INT\t42"),
        ("UINT", Int(99), "INT\t99"),
        ("FLOAT", Float(1.5), "DOUBLE\t1.5"),
        ("BOOL", Int(0), "BOOL\tfalse"),
        ("RESULT", Int(1), "RESULT\t1"),
        ("QIRARRAY", Int(4), "ARRAY\t4"),
        ("QIRTUPLE", Int(2), "TUPLE\t2"),
    ] {
        let mut output = QirOutput::default();
        formatter.emit(&mut output, raw, Some(""), &Scalar(value));
        assert_eq!(output.text, format!("OUTPUT\t{expected}\t\n"));
        assert_eq!(output.malformed, 0);
    }
}

#[test]
fn result_arrays_and_malformed_inputs() {
    let formatter = QirLabeledFormatter::new();
    let mut output = QirOutput::default();
    formatter.emit(
        &mut output,
        "RESULT_ARRAY",
        Some("bits"),
        &List(vec![Bool(true), Int(0), Int(1)]),
    );
    assert_eq!(output.text, "OUTPUT\tRESULT_ARRAY\t101\tbits\n");
    for value in [
        Invalid,
        Scalar(Int(1)),
        List(vec![Int(2)]),
        List(vec![Float(1.0)]),
    ] {
        formatter.emit(&mut output, "RESULT_ARRAY", Some("bits"), &value);
    }
    assert_eq!(output.malformed, 4);
    formatter.emit(&mut output, "unknown", Some("tag"), &Invalid);
    formatter.emit(&mut output, "INT", None, &Scalar(Int(1)));
    assert_eq!(output.malformed, 4);
    assert!(!formatter.validate_tag_and_value(Some("tag"), &Invalid));
}

#[test]
fn shot_methods_compose() {
    let formatter = QirLabeledFormatter::new();
    let shots: Vec<QsysShot> = vec![vec![("USER:INT:a".to_string(), Scalar(Int(42)))], vec![]];
    let attributes = QirMetadata::new();
    let mut output = QirOutput::default();
    formatter.results_header(&mut output);
    formatter.write_first_shot(&mut output, &shots[0], &attributes);
    formatter.write_shot(&mut output, &shots[1]);
    assert_eq!(
        formatter.qir_labeled_output(&shots, &attributes),
        output.text
    );
    assert_eq!(formatter.qir_labeled_output(&[], &attributes), "");
    assert!(output.text.ends_with("END\t0\nSTART\nEND\t0\n"));
}

#[test]
fn matches_shared_malformed_fixture() {
    let shots: Vec<QsysShot> = vec![vec![
        ("USER:INT:reg1".to_string(), Scalar(Int(3))),
        ("USER::reg3".to_string(), Scalar(Float(1.414))),
        ("USER:RESULT:r1".to_string(), Invalid),
        ("USER:FLOAT:reg2".to_string(), Scalar(Float(1.43))),
        (":INT:i0".to_string(), Scalar(Int(1))),
        ("USER:BOOL:".to_string(), Scalar(Int(1))),
    ]];
    let attributes = metadata(&[
        ("required_num_qubits", "9"),
        ("required_num_results", "9"),
    ]);
    assert_eq!(
        QirLabeledFormatter::new().qir_labeled_output(&shots, &attributes),
        MALFORMED1
    );
}

/// The package should expose a stable top-level import surface.
#[test]
fn test_top_level_exports_support_basic_usage() {
    let value: QShotValType = QShotValType::Int(42);
    let item: QsysShotItem = ("USER:INT:answer".into(), QsysShotItemValue::Scalar(value));
    let shot: QsysShot = vec![item];
    let results: QsysShots = vec![shot];

    let output = QirLabeledFormatter::new().qir_labeled_output(&results, &QirMetadata::new());

    assert!(output.contains("OUTPUT\tINT\t42\tanswer\n"));
}

/// The main formatter should be directly importable from the package root.
#[test]
fn test_top_level_formatter_can_emit_values() {
    let mut output = QirOutput::default();
    QirLabeledFormatter::new().emit(
        &mut output,
        "RESULT_ARRAY",
        Some("bits"),
        &QsysShotItemValue::List(vec![
            QShotValType::Int(1),
            QShotValType::Int(0),
            QShotValType::Int(1),
        ]),
    );

    assert_eq!(output.text, "OUTPUT\tRESULT_ARRAY\t101\tbits\n");
}

#[test]
fn format_value_kinds() {
    let formatter = QirLabeledFormatter::new();
    assert!(matches!(
        formatter.format_value("INT", &Scalar(Int(3))),
        FormattedValue::Original
    ));
    assert!(matches!(
        formatter.format_value("RESULT_ARRAY", &Scalar(Int(1))),
        FormattedValue::Invalid
    ));
    match formatter.format_value("RESULT_ARRAY", &List(vec![Bool(true), Int(0)])) {
        FormattedValue::Text(t) => assert_eq!(t, "10"),
        _ => panic!("expected text"),
    }
    match formatter.format_value("BOOL", &List(vec![])) {
        FormattedValue::Text(t) => assert_eq!(t, "false"),
        _ => panic!("expected text"),
    }
}
