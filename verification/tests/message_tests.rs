use midi_router::error_handler::{
    handle_config_error, handle_io_error, handle_jack_router_error, IoErrorKind,
};
use midi_router::errors::{
    join_bullets, FieldErrorCause, FieldFormatError, FieldParseError, RuleConfigError,
    RuleParseError,
};
use midi_router::parser::{load_rules_from_text, parse_rule};
use midi_router::pattern::{NamePattern, PatternError};

fn out_of_range() -> FieldErrorCause {
    FieldErrorCause::Format(FieldFormatError::NumberOutOfRange { min: 0, max: 255 })
}

#[test]
fn test_field_format_error_message() {
    assert_eq!(FieldFormatError::InvalidFormat.message(), "Invalid format");
    assert_eq!(
        FieldFormatError::NumberOutOfRange { min: 0, max: 0xff }.message(),
        "Value must be between 1 and 254"
    );
    assert_eq!(
        FieldFormatError::NumberOutOfRange { min: -5, max: -3 }.message(),
        "Value must be between -4 and -4"
    );
    assert_eq!(
        FieldFormatError::NumberOutOfRange { min: i16::MAX, max: i16::MIN }.message(),
        "Value must be between 32768 and -32769"
    );
    assert_eq!(
        FieldFormatError::NumberOutOfRange { min: -1, max: 1001 }.message(),
        "Value must be between 0 and 1000"
    );
}

#[test]
fn test_field_error_cause_message() {
    assert_eq!(out_of_range().message(), "Value must be between 1 and 254");
    assert_eq!(
        FieldErrorCause::NumberTooLarge.message(),
        "number too large to fit in target type"
    );
    assert_eq!(
        FieldErrorCause::NumberTooSmall.message(),
        "number too small to fit in target type"
    );
    let cause = FieldErrorCause::Pattern(PatternError { message: "no good".to_string() });
    assert_eq!(cause.message(), "no good");
}

#[test]
fn test_field_parse_error_message() {
    let error = FieldParseError { field_id: 3, content: "ch-1".to_string(), reason: Some(out_of_range()) };
    assert_eq!(
        error.message(),
        "Parsing 'ch-1' in field 3 failed: Value must be between 1 and 254"
    );
    let error = FieldParseError { field_id: 0, content: "x".to_string(), reason: None };
    assert_eq!(error.message(), "Parsing 'x' in field 0 failed: Reason unknown");
    let error = FieldParseError {
        field_id: 1234567890,
        content: String::new(),
        reason: Some(FieldErrorCause::Format(FieldFormatError::InvalidFormat)),
    };
    assert_eq!(error.message(), "Parsing '' in field 1234567890 failed: Invalid format");
}

#[test]
fn test_rule_parse_error_message() {
    let error = RuleParseError::InvalidFields {
        line_no: 127,
        invalid_fields: vec![
            FieldParseError { field_id: 1, content: "300000".to_string(), reason: Some(FieldErrorCause::NumberTooLarge) },
            FieldParseError {
                field_id: 2,
                content: "v0".to_string(),
                reason: Some(FieldErrorCause::Pattern(PatternError { message: "one\ntwo".to_string() })),
            },
        ],
    };
    assert_eq!(
        error.message(),
        "Invalid field in line 128:\n  - Parsing '300000' in field 1 failed: number too large to fit in target type\n  - Parsing 'v0' in field 2 failed: one\n    two"
    );
    let error = RuleParseError::InvalidFields { line_no: 0, invalid_fields: Vec::new() };
    assert_eq!(error.message(), "Invalid field in line 1:\n  - ");
    let error = RuleParseError::InvalidFields { line_no: usize::MAX, invalid_fields: Vec::new() };
    assert_eq!(
        error.message(),
        format!("Invalid field in line {}:\n  - ", usize::MAX as u128 + 1)
    );
}

#[test]
fn test_rule_config_error_message() {
    let error = load_rules_from_text("note-on v0 =>\n\nstop ch300 x").err().unwrap();
    assert_eq!(
        error.message(),
        "Rule parsing failed. 2 errors were found: \n  - Invalid field in line 1:\n      - Parsing 'v0' in field 1 failed: Invalid format\n  - Invalid field in line 3:\n      - Parsing 'ch300' in field 1 failed: Value must be between 1 and 254\n      - Parsing 'x' in field 2 failed: Invalid format"
    );
    let empty = RuleConfigError { errors: Vec::new() };
    assert_eq!(empty.message(), "Rule parsing failed. 0 errors were found: \n  - ");
}

#[test]
fn test_pattern_error_carries_the_words_of_the_engine() {
    let expected = regex::Regex::new("(((").err().unwrap().to_string();
    assert!(!expected.is_empty());
    let error = NamePattern::new("(((").err().unwrap();
    assert_eq!(error.message, expected);
    match parse_rule(4, "(((".to_string()) {
        Err(RuleParseError::InvalidFields { line_no, invalid_fields }) => {
            assert_eq!(line_no, 4);
            assert_eq!(invalid_fields.len(), 1);
            assert_eq!(
                invalid_fields[0].message(),
                format!("Parsing '(((' in field 0 failed: {}", expected)
            );
        }
        Ok(rule) => panic!("unexpectedly parsed as {:?}", rule),
    }
}

#[test]
fn test_join_bullets() {
    assert_eq!(join_bullets(&Vec::new()), "");
    assert_eq!(join_bullets(&vec!["a".to_string()]), "a");
    assert_eq!(
        join_bullets(&vec!["a\nb".to_string(), String::new(), "c".to_string()]),
        "a\n    b\n  - \n  - c"
    );
}

#[test]
fn test_handle_config_error() {
    let error = load_rules_from_text("stop 1x").err().unwrap();
    assert_eq!(
        handle_config_error("rules.conf", &error),
        "Error in config file 'rules.conf': Rule parsing failed. 1 errors were found: \n  - Invalid field in line 1:\n      - Parsing '1x' in field 1 failed: Invalid format"
    );
}

#[test]
fn test_handle_io_error() {
    assert_eq!(
        handle_io_error("/a/b", IoErrorKind::NotFound, "ignored"),
        "The file '/a/b' was not found."
    );
    assert_eq!(
        handle_io_error("/a/b", IoErrorKind::PermissionDenied, "ignored"),
        "Permission denied. You may not have the necessary permissions to access the file '/a/b'."
    );
    assert_eq!(
        handle_io_error("/a/b", IoErrorKind::AlreadyExists, "ignored"),
        "The file '/a/b' already exists."
    );
    assert_eq!(
        handle_io_error("/a/b", IoErrorKind::WriteZero, "ignored"),
        "An attempt was made to write zero bytes to '/a/b'."
    );
    assert_eq!(
        handle_io_error("/a/b", IoErrorKind::UnexpectedEof, "ignored"),
        "An unexpected end of file was encountered at '/a/b'."
    );
    assert_eq!(
        handle_io_error("/a/b", IoErrorKind::Other, "the disk is on fire"),
        "An unknown I/O error occurred when accessing '/a/b': the disk is on fire"
    );
}

#[test]
fn test_handle_jack_router_error() {
    assert_eq!(
        handle_jack_router_error(&vec!["no server".to_string(), "no port".to_string()]),
        "The following Jack-related errors occurred:\n  - no server\n  - no port"
    );
    assert_eq!(
        handle_jack_router_error(&vec!["no server".to_string()]),
        "The following Jack-related errors occurred:\n  - no server"
    );
    assert_eq!(
        handle_jack_router_error(&Vec::new()),
        "The following Jack-related errors occurred:\n  - "
    );
}
