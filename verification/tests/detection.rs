use yaml_indent::{detect_indentation, detect_indentation_slice, DetectError};

#[test]
fn test_detect_2_space_indent() {
    let yaml = "root:\n  child: value\n";
    let result = detect_indentation(yaml).unwrap().unwrap();
    assert_eq!(result.spaces(), 2);
}

#[test]
fn test_detect_4_space_indent() {
    let yaml = "root:\n    child: value\n";
    let result = detect_indentation(yaml).unwrap().unwrap();
    assert_eq!(result.spaces(), 4);
}

#[test]
fn test_detect_nested_indent() {
    let yaml = "root:\n  level1:\n    level2: value\n";
    let result = detect_indentation(yaml).unwrap().unwrap();
    assert_eq!(result.spaces(), 2);
}

#[test]
fn test_detect_sequence_indent() {
    let yaml = "items:\n  - one\n  - two\n";
    let result = detect_indentation(yaml).unwrap().unwrap();
    assert_eq!(result.spaces(), 2);
}

#[test]
fn test_flat_yaml_no_indent() {
    let yaml = "key: value\n";
    let result = detect_indentation(yaml).unwrap();
    assert!(result.is_none());
}

#[test]
fn test_flow_style_no_indent() {
    let yaml = "items: [1, 2, 3]\n";
    let result = detect_indentation(yaml).unwrap();
    assert!(result.is_none());
}

#[test]
fn test_invalid_yaml() {
    let yaml = "@invalid";
    let result = detect_indentation(yaml);
    assert!(result.is_err());
}

#[test]
fn test_8_space_indent() {
    let yaml = "root:\n        child: value\n";
    let result = detect_indentation(yaml).unwrap().unwrap();
    assert_eq!(result.spaces(), 8);
}

#[test]
fn test_3_space_indent() {
    let yaml = "root:\n   child: value\n";
    let result = detect_indentation(yaml).unwrap().unwrap();
    assert_eq!(result.spaces(), 3);
}

#[test]
fn test_deeply_nested() {
    let yaml = r#"
level0:
    level1:
        level2:
            level3: value
"#;
    let result = detect_indentation(yaml).unwrap().unwrap();
    assert_eq!(result.spaces(), 4);
}

#[test]
fn test_with_comments() {
    let yaml = r#"
# Comment at root
root:
  # Comment at level 1
  child: value
"#;
    let result = detect_indentation(yaml).unwrap().unwrap();
    assert_eq!(result.spaces(), 2);
}

#[test]
fn test_mixed_content_types() {
    let yaml = r#"
mapping:
  key: value
sequence:
  - item1
  - item2
"#;
    let result = detect_indentation(yaml).unwrap().unwrap();
    assert_eq!(result.spaces(), 2);
}

#[test]
fn constant_unit_detected_for_one_through_nine() {
    for k in 1usize..=9 {
        let yaml = format!("root:\n{}child: value\n", " ".repeat(k));
        let result = detect_indentation(&yaml).unwrap().unwrap();
        assert_eq!(result.spaces(), k);
    }
}

#[test]
fn comment_and_blank_lines_do_not_influence_the_unit() {
    let with = "root:\n  # note\n\n  child: v\n";
    let without = "root:\n  child: v\n";
    let a = detect_indentation(with).unwrap().unwrap();
    let b = detect_indentation(without).unwrap().unwrap();
    assert_eq!(a.spaces(), 2);
    assert_eq!(a, b);
}

#[test]
fn unit_is_gcd_across_all_transitions() {
    // Levels 0, 3, 0, 6: every change and every level is a multiple of 3.
    let yaml = "a:\n   b: 1\nc:\n      d: 2\n";
    let result = detect_indentation(yaml).unwrap().unwrap();
    assert_eq!(result.spaces(), 3);
}

#[test]
fn inconsistent_widths_collapse_to_one_space() {
    // Levels 0, 2, 5: the differences 2 and 3 reduce to a unit of 1.
    let yaml = "a:\n  b:\n     c: 1\n";
    let result = detect_indentation(yaml).unwrap().unwrap();
    assert_eq!(result.spaces(), 1);
}

#[test]
fn tab_in_flow_indentation_is_a_policy_error() {
    // The parser tolerates tabs inside flow collections; the analysis does not.
    let yaml = "{a: 1,\n\tb: 2}\n";
    let result = detect_indentation(yaml);
    assert!(matches!(result, Err(DetectError::TabIndentation)));
}

#[test]
fn invalid_yaml_is_a_syntax_error() {
    let result = detect_indentation("@invalid");
    assert!(matches!(result, Err(DetectError::Syntax(_))));
}

#[test]
fn ill_encoded_input_is_an_encoding_error() {
    // Bytes that are not valid UTF-8 fail before any parsing or analysis.
    let bytes: Vec<u8> = vec![0x61, 0x3a, 0x20, 0xff, 0xfe, 0x0a];
    let result = detect_indentation_slice(&bytes);
    assert!(matches!(result, Err(DetectError::Encoding(_))));
}

#[test]
fn entry_points_agree_on_syntax_errors() {
    let yaml = "@invalid";
    let from_text = detect_indentation(yaml);
    let from_slice = detect_indentation_slice(yaml.as_bytes());
    match (from_text, from_slice) {
        (Err(DetectError::Syntax(a)), Err(DetectError::Syntax(b))) => assert_eq!(a, b),
        other => panic!("expected two equal syntax errors, got {:?}", other),
    }
}

#[test]
fn slice_variant_agrees_with_text_variant() {
    let yaml = "root:\n  child: value\n";
    let from_slice = detect_indentation_slice(yaml.as_bytes()).unwrap().unwrap();
    let from_text = detect_indentation(yaml).unwrap().unwrap();
    assert_eq!(from_slice, from_text);
    assert_eq!(from_slice.spaces(), 2);
}

#[test]
fn empty_document_has_no_signal() {
    let result = detect_indentation("").unwrap();
    assert!(result.is_none());
}

#[test]
fn detection_is_idempotent() {
    let inputs = ["root:\n  child: value\n", "key: value\n", "items: [1, 2]\n"];
    for yaml in inputs {
        let first = detect_indentation(yaml).unwrap();
        let second = detect_indentation(yaml).unwrap();
        assert_eq!(first, second);
    }
    let bad = "@invalid";
    assert_eq!(
        detect_indentation(bad).is_err(),
        detect_indentation(bad).is_err()
    );
}
