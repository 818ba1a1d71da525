use rachet::increment::{increment_command, increment_statement, IncError};

fn args(list: &[&str]) -> Vec<String> {
    list.iter().map(|s| s.to_string()).collect()
}

#[test]
fn statement_plain() {
    assert_eq!(increment_statement("x", 5), "x += 5;");
    assert_eq!(increment_statement("counter", 1), "counter += 1;");
}

#[test]
fn statement_negative_amount() {
    assert_eq!(increment_statement("x", -3), "x += -3;");
    assert_eq!(increment_statement("x", i32::MIN), "x += -2147483648;");
}

#[test]
fn command_default_amount() {
    let r = increment_command(&args(&["inc", "total"]));
    assert_eq!(r.ok(), Some("total += 1;".to_string()));
}

#[test]
fn command_explicit_amount() {
    let r = increment_command(&args(&["inc", "total", "42"]));
    assert_eq!(r.ok(), Some("total += 42;".to_string()));
}

#[test]
fn command_extra_arguments_ignored() {
    let r = increment_command(&args(&["inc", "total", "2", "junk"]));
    assert_eq!(r.ok(), Some("total += 2;".to_string()));
}

#[test]
fn command_usage_error() {
    assert!(matches!(increment_command(&args(&["inc"])), Err(IncError::Usage)));
    assert!(matches!(increment_command(&args(&[])), Err(IncError::Usage)));
}

#[test]
fn command_invalid_amount() {
    match increment_command(&args(&["inc", "x", "ten"])) {
        Err(IncError::InvalidAmount { text }) => assert_eq!(text, "ten"),
        other => panic!("expected an invalid-amount error, got {:?}", other.is_ok()),
    }
    assert!(matches!(
        increment_command(&args(&["inc", "x", "2147483648"])),
        Err(IncError::InvalidAmount { .. })
    ));
}
