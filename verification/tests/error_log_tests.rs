use xs_file_transfer::error_log::ErrorLog;

#[test]
fn new_log_is_empty() {
    let log = ErrorLog::default();
    assert!(log.is_empty());
    assert!(log.last_error().is_none());
    assert!(log.all_errors().is_empty());
}

#[test]
fn logged_error_is_last() {
    let mut log = ErrorLog::default();
    log.log("first".to_string());
    log.log("second".to_string());
    assert!(!log.is_empty());
    assert_eq!(log.last_error(), Some("second".to_string()));
    assert_eq!(log.all_errors(), vec!["first".to_string(), "second".to_string()]);
}
