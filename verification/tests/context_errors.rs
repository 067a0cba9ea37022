use class_scheduler::error_context::{context_error, context_text};

fn fallible_operation(succeed: bool) -> Result<String, anyhow::Error> {
    if succeed {
        Ok("Operation succeeded".to_string())
    } else {
        Err(anyhow::Error::msg("Operation failed"))
    }
}

#[test]
fn test_context_error_success() {
    let result: Result<String, anyhow::Error> = context_error(fallible_operation(true), "helpers", 83, "");
    assert!(result.is_ok());
    assert_eq!(result.unwrap(), "Operation succeeded");
}

#[test]
fn test_context_error_failure() {
    let result: Result<String, anyhow::Error> = context_error(fallible_operation(false), "helpers", 90, "");
    assert!(result.is_err());
    let err = result.unwrap_err();
    let err_msg = format!("{:#}", err);

    println!("{}", err_msg);

    assert!(err_msg.contains("Operation failed"));
    assert!(err_msg.contains("Error: file-"));
    assert!(err_msg.contains("line-"));
}

#[test]
fn test_context_error_with_custom_text() {
    let result: Result<String, anyhow::Error> =
        context_error(fallible_operation(false), "helpers", 104, "Custom error message");
    assert!(result.is_err());
    let err = result.unwrap_err();
    let err_msg = format!("{:#}", err);

    println!("{}", err_msg);

    assert!(err_msg.contains("Operation failed"));
    assert!(err_msg.contains("Error: file-"));
    assert!(err_msg.contains("line-"));
    assert!(err_msg.contains("Custom error message"));
}

#[test]
fn context_error_puts_the_place_in_front_of_the_cause() {
    let result: Result<u8, anyhow::Error> =
        context_error(Err(anyhow::Error::msg("disk full")), "storage", 1207, "while saving");
    let err = result.unwrap_err();
    assert_eq!(format!("{:#}", err), "Error: file-storage, line-1207 | while saving: disk full");
    assert_eq!(format!("{}", err), "Error: file-storage, line-1207 | while saving");
    let chain: Vec<String> = err.chain().map(|cause| cause.to_string()).collect();
    assert_eq!(chain, vec!["Error: file-storage, line-1207 | while saving".to_string(), "disk full".to_string()]);
}

#[test]
fn context_error_keeps_earlier_context_behind_the_new_one() {
    let first: Result<u8, anyhow::Error> = context_error(Err(anyhow::Error::msg("root")), "a", 1, "inner");
    let second = context_error(first, "b", 2, "outer");
    let err = second.unwrap_err();
    assert_eq!(format!("{:#}", err), "Error: file-b, line-2 | outer: Error: file-a, line-1 | inner: root");
}

#[test]
fn context_text_formats_file_line_and_text() {
    assert_eq!(context_text("main", 0, ""), "Error: file-main, line-0 | ");
    assert_eq!(context_text("main", 10, "x"), "Error: file-main, line-10 | x");
    assert_eq!(context_text("", 4294967295, "max"), "Error: file-, line-4294967295 | max");
}
