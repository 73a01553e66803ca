use hackernews::error::ServerError;

#[test]
fn message_names_the_kind_of_failure() {
    assert_eq!(
        ServerError::Reqwest("connection refused".to_string()).message(),
        "reqwest error: connection refused"
    );
    assert_eq!(
        ServerError::SerdeJson("expected value at line 1 column 1".to_string()).message(),
        "json error: expected value at line 1 column 1"
    );
    assert_eq!(ServerError::Reqwest(String::new()).message(), "reqwest error: ");
}

#[test]
fn response_text_wraps_the_message() {
    assert_eq!(
        ServerError::SerdeJson("eof".to_string()).response_text(),
        "Server error. Error: json error: eof"
    );
    assert_eq!(
        ServerError::Reqwest("timeout".to_string()).response_text(),
        "Server error. Error: reqwest error: timeout"
    );
}

#[test]
fn a_copy_of_a_failure_is_equal_to_it() {
    let e = ServerError::Reqwest("x".to_string());
    assert_eq!(e.clone(), e);
    let d = ServerError::SerdeJson("x".to_string());
    assert_eq!(d.clone(), d);
    assert_ne!(e, d);
}
