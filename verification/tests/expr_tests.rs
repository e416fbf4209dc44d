use graphexpr::expr::{compile, expression_status};

#[test]
fn status_of_a_usable_expression() {
    assert_eq!(expression_status("a % b == 0".to_string()), Some(()));
    assert_eq!(expression_status("7".to_string()), Some(()));
}

#[test]
fn status_of_a_malformed_expression() {
    assert_eq!(expression_status("a +".to_string()), None);
    assert_eq!(expression_status("(a".to_string()), None);
}

#[test]
fn status_of_an_unknown_variable() {
    // The text parses, but evaluation on the sample pair fails.
    assert_eq!(expression_status("q".to_string()), None);
}

#[test]
fn compile_reports_parse_errors() {
    assert!(compile("a * (b".to_string()).is_err());
    let err = compile("a +".to_string()).err().unwrap();
    assert!(!err.is_empty());
}

#[test]
fn compile_accepts_the_supported_grammar() {
    assert!(compile("a + b".to_string()).is_ok());
    assert!(compile("a % b == 0".to_string()).is_ok());
    assert!(compile("(a * 2 - b) / 3 <= 4".to_string()).is_ok());
}
