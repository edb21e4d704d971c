//! Rendering of individual values, and properties of the whole output on concrete inputs.

use qir_formatter::{
    FloatValue, QShotValType, QirLabeledFormatter, QirMetadata, QirOutput, QsysShot,
    QsysShotItemValue,
};
use qir_formatter::labeled_formatter::{qir_type, user_field_of};
use QShotValType::{Bool, Int};
use QsysShotItemValue::{Invalid, List, Scalar};

fn float(x: f64) -> QShotValType {
    QShotValType::Float(FloatValue { bits: x.to_bits(), display: x.to_string() })
}

fn emit(ftype: &str, tag: Option<&str>, value: QsysShotItemValue) -> QirOutput {
    let mut output = QirOutput::default();
    QirLabeledFormatter::new().emit(&mut output, ftype, tag, &value);
    output
}

#[test]
fn integer_texts() {
    assert_eq!(Int(0).text(), "0");
    assert_eq!(Int(7).text(), "7");
    assert_eq!(Int(-7).text(), "-7");
    assert_eq!(Int(1000).text(), "1000");
    assert_eq!(Int(i64::MAX).text(), "9223372036854775807");
    assert_eq!(Int(i64::MIN).text(), "-9223372036854775808");
}

#[test]
fn bool_scalar_texts() {
    assert_eq!(Bool(true).text(), "True");
    assert_eq!(Bool(false).text(), "False");
    assert_eq!(emit("INT", Some("b"), Scalar(Bool(true))).text, "OUTPUT\tINT\tTrue\tb\n");
}

#[test]
fn float_texts() {
    assert_eq!(float(2.0).text(), "2.0");
    assert_eq!(float(-3.0).text(), "-3.0");
    assert_eq!(float(0.0).text(), "0.0");
    assert_eq!(float(-0.0).text(), "-0.0");
    assert_eq!(float(0.5).text(), "0.5");
    assert_eq!(float(1e300).text(), format!("{}.0", 1e300));
    assert_eq!(float(1234.5).text(), "1234.5");
    assert_eq!(float(f64::NAN).text(), "nan");
    assert_eq!(float(f64::INFINITY).text(), "inf");
    assert_eq!(float(f64::NEG_INFINITY).text(), "-inf");
    assert_eq!(float(5e-324).text(), format!("{}", 5e-324));
}

#[test]
fn list_values_keep_their_own_text() {
    assert_eq!(
        emit("INT", Some("l"), List(vec![Int(1), Int(-2), Bool(false)])).text,
        "OUTPUT\tINT\t[1, -2, False]\tl\n"
    );
    assert_eq!(emit("QIRARRAY", Some("e"), List(vec![])).text, "OUTPUT\tARRAY\t[]\te\n");
}

#[test]
fn bool_truthiness() {
    for (value, expected) in [
        (Scalar(float(0.0)), "false"),
        (Scalar(float(-0.0)), "false"),
        (Scalar(float(0.25)), "true"),
        (Scalar(float(f64::NAN)), "true"),
        (Scalar(Int(-1)), "true"),
        (Scalar(Bool(false)), "false"),
        (List(vec![]), "false"),
        (List(vec![Int(0)]), "true"),
    ] {
        let output = emit("BOOL", Some("t"), value);
        assert_eq!(output.text, format!("OUTPUT\tBOOL\t{expected}\tt\n"));
        assert_eq!(output.malformed, 0);
    }
    // An invalid value is rendered but not written, and is not malformed.
    let output = emit("BOOL", Some("t"), Invalid);
    assert!(output.text.is_empty());
    assert_eq!(output.malformed, 0);
}

#[test]
fn malformed_values() {
    let output = emit("RESULT_ARRAY", Some("r"), List(vec![Int(1), float(1.0)]));
    assert!(output.text.is_empty());
    assert_eq!(output.malformed, 1);
    let output = emit("INT", Some("i"), Invalid);
    assert!(output.text.is_empty());
    assert_eq!(output.malformed, 1);
    // An unknown type is neither written nor malformed.
    let output = emit("STRING", Some("s"), Invalid);
    assert!(output.text.is_empty());
    assert_eq!(output.malformed, 0);
}

#[test]
fn validators() {
    let formatter = QirLabeledFormatter::new();
    assert!(formatter._val_tag_type(Some(""), &Invalid));
    assert!(!formatter._val_tag_type(None, &Scalar(Int(1))));
    assert!(formatter._val_null(Some(""), &Scalar(Int(1))));
    assert!(!formatter._val_null(Some("x"), &Invalid));
    assert!(!formatter._val_null(None, &Scalar(Int(1))));
    assert!(formatter.validate_tag_and_value(Some(""), &Scalar(Int(1))));
    assert!(!formatter.validate_tag_and_value(None, &Scalar(Int(1))));
}

#[test]
fn tag_is_everything_after_the_type() {
    let shot: QsysShot = vec![
        ("USER:INT:a:b:c".to_string(), Scalar(Int(5))),
        ("USER:INT".to_string(), Scalar(Int(6))),
        ("user:INT:x".to_string(), Scalar(Int(7))),
        ("USER:\u{3c6}:x".to_string(), Scalar(Int(8))),
    ];
    let mut output = QirOutput::default();
    QirLabeledFormatter::new().emit_values_in_shot(&mut output, &shot);
    assert_eq!(output.text, "OUTPUT\tINT\t5\ta:b:c\n");
    assert_eq!(output.malformed, 0);
}

#[test]
fn header_and_metadata() {
    let formatter = QirLabeledFormatter::new();
    let mut output = QirOutput::default();
    formatter.results_header(&mut output);
    assert_eq!(output.text, "HEADER\tschema_id\tlabeled\nHEADER\tschema_version\t2.1\n");
    let mut attributes = QirMetadata::new();
    attributes.insert("required_num_qubits".to_string(), "4".to_string());
    attributes.insert("other".to_string(), "x".to_string());
    let mut output = QirOutput::default();
    formatter.first_shot_header(&mut output, &attributes);
    assert_eq!(
        output.text,
        "START\nMETADATA\tentry_point\nMETADATA\tqir_profiles\tbase_profile\n\
         METADATA\trequired_num_qubits\t4\nMETADATA\trequired_num_results\t0\n"
    );
    let mut output = QirOutput::default();
    formatter.shot_footer(&mut output);
    assert_eq!(output.text, "END\t0\n");
}

#[test]
fn writing_appends_and_counts() {
    let formatter = QirLabeledFormatter::new();
    let shot: QsysShot = vec![
        ("USER:INT:x".to_string(), Scalar(Int(1))),
        ("USER:RESULT:y".to_string(), Invalid),
    ];
    let mut output = QirOutput { text: "before\n".to_string(), malformed: 3 };
    formatter.write_shot(&mut output, &shot);
    assert_eq!(output.text, "before\nSTART\nOUTPUT\tINT\t1\tx\nEND\t0\n");
    assert_eq!(output.malformed, 4);
}

#[test]
fn one_more_shot_adds_one_block() {
    let formatter = QirLabeledFormatter::new();
    let attributes = QirMetadata::new();
    let first: QsysShot = vec![("USER:INT:x".to_string(), Scalar(Int(1)))];
    let second: QsysShot = vec![("USER:INT:y".to_string(), Scalar(Int(2)))];
    let one = formatter.qir_labeled_output(&[first.clone()], &attributes);
    let two = formatter.qir_labeled_output(&[first, second], &attributes);
    assert_eq!(two, format!("{one}START\nOUTPUT\tINT\t2\ty\nEND\t0\n"));
}

#[test]
fn shots_concatenate() {
    let formatter = QirLabeledFormatter::new();
    let a: QsysShot = vec![
        ("USER:INT:x".to_string(), Scalar(Int(1))),
        ("MEAS:BOOL:".to_string(), Scalar(Int(1))),
    ];
    let b: QsysShot = vec![("USER:RESULT:y".to_string(), Invalid)];
    let mut ab = a.clone();
    ab.extend(b.clone());
    let mut separate = QirOutput::default();
    formatter.emit_values_in_shot(&mut separate, &a);
    formatter.emit_values_in_shot(&mut separate, &b);
    let mut together = QirOutput::default();
    formatter.emit_values_in_shot(&mut together, &ab);
    assert_eq!(separate.text, together.text);
    assert_eq!(separate.malformed, together.malformed);
    assert_eq!(together.malformed, 1);
}

#[test]
fn no_shots_no_output() {
    let formatter = QirLabeledFormatter::new();
    let mut output = QirOutput::default();
    formatter.write_results(&mut output, &[], &QirMetadata::new());
    assert!(output.text.is_empty());
    assert_eq!(output.malformed, 0);
}

#[test]
fn values_compare_as_numbers() {
    assert_eq!(float(0.0), float(-0.0));
    assert_ne!(float(f64::NAN), float(f64::NAN));
    assert_eq!(float(1.5), float(1.5));
    assert_ne!(float(1.5), float(2.5));
    assert_ne!(float(1.0), Int(1));
    assert_eq!(List(vec![Int(1), float(2.0)]), List(vec![Int(1), float(2.0)]));
    assert_ne!(Scalar(Int(1)), Invalid);
}

#[test]
fn user_names_and_qir_types() {
    assert_eq!(user_field_of("USER:INT:reg:3"), Some(("INT", "reg:3")));
    assert_eq!(user_field_of("USER:BOOL:"), Some(("BOOL", "")));
    assert_eq!(user_field_of("USER::x"), Some(("", "x")));
    assert_eq!(user_field_of("USER:INT"), None);
    assert_eq!(user_field_of("MEAS:BOOL:"), None);
    assert_eq!(qir_type("UINT"), Some("INT"));
    assert_eq!(qir_type("FLOAT"), Some("DOUBLE"));
    assert_eq!(qir_type("RESULT_ARRAY"), Some("RESULT_ARRAY"));
    assert_eq!(qir_type("QIRTUPLE"), Some("TUPLE"));
    assert_eq!(qir_type("INTARR"), None);
}

#[test]
fn output_line_structure() {
    let formatter = QirLabeledFormatter::new();
    let shots: Vec<QsysShot> = vec![
        vec![
            ("USER:INT:a".to_string(), Scalar(Int(1))),
            ("USER:RESULT:b".to_string(), Invalid),
            ("MEAS:BOOL:".to_string(), Scalar(Int(1))),
        ],
        vec![],
        vec![("USER:BOOL:c".to_string(), List(vec![Int(0)]))],
    ];
    let text = formatter.qir_labeled_output(&shots, &QirMetadata::new());
    assert!(text.ends_with("END\t0\n"));
    let lines: Vec<&str> = text.split_terminator('\n').collect();
    assert_eq!(lines[..7], [
        "HEADER\tschema_id\tlabeled",
        "HEADER\tschema_version\t2.1",
        "START",
        "METADATA\tentry_point",
        "METADATA\tqir_profiles\tbase_profile",
        "METADATA\trequired_num_qubits\t0",
        "METADATA\trequired_num_results\t0",
    ]);
    assert_eq!(lines.iter().filter(|l| **l == "START").count(), 3);
    assert_eq!(lines.iter().filter(|l| **l == "END\t0").count(), 3);
    assert_eq!(lines.iter().filter(|l| l.starts_with("HEADER\t")).count(), 2);
    assert_eq!(lines.iter().filter(|l| l.starts_with("METADATA\t")).count(), 4);
    let records: Vec<&&str> = lines.iter().filter(|l| l.starts_with("OUTPUT\t")).collect();
    assert_eq!(records, [&"OUTPUT\tINT\t1\ta", &"OUTPUT\tBOOL\ttrue\tc"]);
    assert_eq!(lines.len(), 2 + 4 + 3 + 3 + 2);
}
