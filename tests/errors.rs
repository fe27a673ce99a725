use universal::errors::{first_char, DataStoreError, ExampleErrors, IoFailure, Limits, User};
use universal::failure::{invoke_and_appear_error, invoke_and_take_more_meaasge, make_error, with_context, Failure};

#[test]
fn test_anyhow_spread_error() {
    let err = invoke_and_appear_error().unwrap_err();
    assert_eq!(err.to_string(), "this is a custom error,no actual use");
    assert_eq!(err.root_cause(), "this is a custom error,no actual use");
    assert!(err.source().is_none());
}

#[test]
fn test_anyhow_take_more_message_error() {
    let err = invoke_and_take_more_meaasge().unwrap_err();
    assert_eq!(err.to_string(), "invoke_and_take_more_meaasge failed");
    assert_eq!(err.root_cause(), "this is a custom error,no actual use");
    let cause = err.source().unwrap();
    assert_eq!(cause.to_string(), "this is a custom error,no actual use");
}

#[test]
fn make_error_by_anyhow() {
    let err = Failure::msg("this is an anyhow error".to_string());
    assert_eq!(err.to_string(), "this is an anyhow error");
    assert_eq!(err.root_cause(), "this is an anyhow error");
}

#[test]
fn make_error_always_fails_with_the_custom_failure() {
    let err = make_error().unwrap_err();
    assert_eq!(err.to_string(), ExampleErrors::Aerror.to_string());
}

#[test]
fn context_layers_stack_and_success_passes() {
    let err = Failure::msg("disk full".to_string())
        .context("saving".to_string())
        .context("closing".to_string());
    assert_eq!(err.to_string(), "closing");
    assert_eq!(err.root_cause(), "disk full");
    let inner = err.source().unwrap();
    assert_eq!(inner.to_string(), "saving");
    assert_eq!(inner.source().unwrap().to_string(), "disk full");
    let ok: Result<u8, Failure> = Ok(3);
    assert_eq!(with_context(ok, "unused".to_string()).ok(), Some(3));
}

#[test]
fn test_std_debug_trait() {
    let user = User { id: 1, name: "Alice".to_string(), age: 30 };
    let text = format!("user: {:?}", user);
    println!("{}", text);
    assert_eq!(text, r#"user: User { id: 1, name: "Alice", age: 30 }"#);
}

#[test]
fn test_std_display_trait() {
    let user = User { id: 2, name: "Bob".to_string(), age: 25 };
    let text = format!("user: {}", user.to_string());
    println!("{}", text);
    assert_eq!(text, "user: [impl Display] User { id: 2, name: Bob, age: 25 }");
}

#[test]
fn test_datastore_error() {
    let e1 = DataStoreError::from(IoFailure::new("connection lost".to_string()));
    let e2 = DataStoreError::Redaction("user_password".to_string());
    let e3 = DataStoreError::InvalidHeader { expected: "v1".to_string(), found: "v2".to_string() };
    let e4 = DataStoreError::Unknown;
    println!("{}", e1.to_string());
    println!("{}", e2.to_string());
    println!("{}", e3.to_string());
    println!("{}", e4.to_string());
    assert_eq!(e1.to_string(), "data store disconnected");
    assert_eq!(e1.source().unwrap().message, "connection lost");
    assert_eq!(e2.to_string(), "the data for key `user_password` is not available");
    assert!(e2.source().is_none());
    assert_eq!(e3.to_string(), "invalid header (expected \"v1\", found \"v2\")");
    assert_eq!(e4.to_string(), "unknown data store error");
}

#[test]
fn header_failure_escapes_its_strings() {
    let e = DataStoreError::InvalidHeader { expected: "a\"b".to_string(), found: "\n".to_string() };
    assert_eq!(e.to_string(), "invalid header (expected \"a\\\"b\", found \"\\n\")");
}

#[test]
fn test_example_errors() {
    let limit = Limits { lo: 0, hi: 5 };
    let e1 = ExampleErrors::InvalidLookahead(5000);
    let e2 = ExampleErrors::WrongCase("Hello".to_string());
    let e3 = ExampleErrors::OutOfBounds { idx: 10, limits: limit };
    println!("{}", e1.to_string());
    println!("{}", e2.to_string());
    println!("{}", e3.to_string());
    println!("{}的首字母是{}", e2.to_string(), first_char("Hello"));
    assert_eq!(e1.to_string(), "invalid rdo_lookahead_frames 5000 (expected < 2147483647)");
    assert_eq!(e2.to_string(), "first letter must be lowercase but was 'H'");
    assert_eq!(e3.to_string(), "invalid index 10, expected at least 0 and at most 5");
    assert_eq!(first_char("Hello"), 'H');
}

#[test]
fn first_char_of_empty_and_wide_text() {
    assert_eq!(first_char(""), '\0');
    assert_eq!(first_char("éa"), 'é');
    assert_eq!(ExampleErrors::WrongCase(String::new()).to_string(), "first letter must be lowercase but was '\\0'");
    assert_eq!(ExampleErrors::WrongCase("'x".to_string()).to_string(), "first letter must be lowercase but was '\\''");
}

#[test]
fn io_failure_is_kept_as_the_cause() {
    let e = ExampleErrors::from(IoFailure::new("connection lost".to_string()));
    assert_eq!(e.to_string(), "I/O error: connection lost");
    assert_eq!(e.source(), Some(&IoFailure::new("connection lost".to_string())));
    assert!(ExampleErrors::Aerror.source().is_none());
    assert_eq!(ExampleErrors::InvalidLookahead(u32::MAX).to_string(), "invalid rdo_lookahead_frames 4294967295 (expected < 2147483647)");
    let big = ExampleErrors::OutOfBounds { idx: usize::MAX, limits: Limits { lo: 1, hi: 0 } };
    assert_eq!(big.to_string(), format!("invalid index {}, expected at least 1 and at most 0", usize::MAX));
}

#[test]
fn failure_from_error_uses_its_message() {
    let f = Failure::from_error(&ExampleErrors::OutOfBounds { idx: 3, limits: Limits { lo: 0, hi: 2 } });
    assert_eq!(f.to_string(), "invalid index 3, expected at least 0 and at most 2");
    assert!(f.source().is_none());
}
