use rosace_widgets::clipboard::ClipboardError;

#[test]
fn clipboard_error_display_unavailable() {
    assert_eq!(ClipboardError::Unavailable.to_display_string(), "clipboard unavailable");
}

#[test]
fn clipboard_error_display_command_failed() {
    let e = ClipboardError::CommandFailed("no such command".to_string());
    assert_eq!(e.to_display_string(), "clipboard command failed: no such command");
}

#[test]
fn clipboard_error_display_unsupported() {
    assert_eq!(ClipboardError::Unsupported.to_display_string(), "clipboard not supported on this platform");
}

#[test]
fn clipboard_error_clone_eq() {
    let a = ClipboardError::CommandFailed("err".to_string());
    let b = a.clone();
    assert_eq!(a, b);
}

#[test]
fn clipboard_errors_of_different_kinds_or_messages_differ() {
    assert_ne!(ClipboardError::Unavailable, ClipboardError::Unsupported);
    assert_ne!(
        ClipboardError::CommandFailed("a".to_string()),
        ClipboardError::CommandFailed("b".to_string())
    );
}
