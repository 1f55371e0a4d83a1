use ssh_tui::connection::{connection_message, SessionEnd};

#[test]
fn test_successful_connection() {
    let result = connection_message("test-host", SessionEnd::Success);
    assert_eq!(result, "Successfully connected to test-host");
}

#[test]
fn test_failed_connection_with_code() {
    let result = connection_message("test-host", SessionEnd::ExitCode(255));
    assert_eq!(result, "Connection to test-host exited with code 255");
}

#[test]
fn connection_messages_for_other_endings() {
    assert_eq!(
        connection_message("h", SessionEnd::Signal),
        "Connection to h terminated by signal"
    );
    assert_eq!(
        connection_message("h", SessionEnd::ExitCode(-3)),
        "Connection to h exited with code -3"
    );
    assert_eq!(
        connection_message("h", SessionEnd::ExitCode(i32::MIN)),
        format!("Connection to h exited with code {}", i32::MIN)
    );
    assert_eq!(
        connection_message("h", SessionEnd::ExitCode(1000)),
        "Connection to h exited with code 1000"
    );
}
