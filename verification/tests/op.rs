use pinentry_op::op::{
    get_item_ref, get_pin, is_newline, is_not_ascii_newline, ItemRef, ToolOutput, PROGRAM,
};
use pinentry_op::pinentry::SecretError;

fn finished(success: bool, stdout: &[u8]) -> Option<ToolOutput> {
    Some(ToolOutput { success, stdout: stdout.to_vec() })
}

#[test]
fn item_reference_is_the_first_line() {
    assert_eq!(get_item_ref("op://vault/item/password\n"), "op://vault/item/password");
    assert_eq!(get_item_ref("op://vault/item/password\r\n"), "op://vault/item/password");
    assert_eq!(get_item_ref("op://vault/item/password\nsecond line\n"), "op://vault/item/password");
    assert_eq!(get_item_ref("first\rsecond\nthird"), "first");
}

#[test]
fn item_reference_without_line_break_is_the_whole_text() {
    assert_eq!(get_item_ref("op://vault/item/password"), "op://vault/item/password");
    assert_eq!(get_item_ref(""), "");
    assert_eq!(get_item_ref(" spaced out "), " spaced out ");
}

#[test]
fn item_reference_may_be_empty() {
    assert_eq!(get_item_ref("\n"), "");
    assert_eq!(get_item_ref("\r\nop://vault/item/password"), "");
}

#[test]
fn item_reference_keeps_text_outside_ascii() {
    assert_eq!(get_item_ref("op://tresor/schlüssel/paßwort\nrest"), "op://tresor/schlüssel/paßwort");
    assert_eq!(get_item_ref("☃\n☃"), "☃");
}

#[test]
fn load_takes_the_first_line() {
    assert_eq!(ItemRef::load("op://vault/item/password\n# comment\n").as_str(), "op://vault/item/password");
    assert_eq!(ItemRef::load("plain").as_str(), "plain");
    assert_eq!(ItemRef::load("").as_str(), "");
}

#[test]
fn tool_is_asked_to_read_the_item() {
    assert_eq!(PROGRAM, "op");
    let item = ItemRef::load("op://vault/item/password\n");
    assert_eq!(item.arguments(), vec!["read".to_string(), "op://vault/item/password".to_string()]);
}

#[test]
fn line_break_characters() {
    assert!(is_newline('\n'));
    assert!(is_newline('\r'));
    assert!(!is_newline(' '));
    assert!(!is_newline('\t'));
    assert!(!is_newline('n'));
    assert!(!is_newline('\u{2028}'));
    assert!(!is_not_ascii_newline('\n'));
    assert!(!is_not_ascii_newline('\r'));
    assert!(is_not_ascii_newline(' '));
    assert!(is_not_ascii_newline('\u{b}'));
    assert!(is_not_ascii_newline('\u{85}'));
}

#[test]
fn pin_is_the_output_without_line_breaks() {
    assert_eq!(get_pin(finished(true, b"test-pin")), Ok("test-pin".to_string()));
    assert_eq!(get_pin(finished(true, b"test-pin\n")), Ok("test-pin".to_string()));
    assert_eq!(get_pin(finished(true, b"test-pin\r\n")), Ok("test-pin".to_string()));
    assert_eq!(get_pin(finished(true, b"two\nlines\n")), Ok("twolines".to_string()));
    assert_eq!(get_pin(finished(true, b" kept as it is ")), Ok(" kept as it is ".to_string()));
}

#[test]
fn pin_may_hold_text_outside_ascii() {
    assert_eq!(get_pin(finished(true, "paßwört ☃\n".as_bytes())), Ok("paßwört ☃".to_string()));
    assert_eq!(get_pin(finished(true, &[0xf0, 0x9f, 0x94, 0x91, b'\n'])), Ok("\u{1f511}".to_string()));
}

#[test]
fn output_of_line_breaks_only_is_an_empty_pin() {
    assert_eq!(get_pin(finished(true, b"\n")), Ok(String::new()));
    assert_eq!(get_pin(finished(true, b"\r\n\r\n")), Ok(String::new()));
}

#[test]
fn tool_that_could_not_start_is_unavailable() {
    assert_eq!(get_pin(None), Err(SecretError::Unavailable));
}

#[test]
fn tool_that_reports_failure_fails() {
    assert_eq!(get_pin(finished(false, b"")), Err(SecretError::Failed));
    assert_eq!(get_pin(finished(false, b"test-pin")), Err(SecretError::Failed));
    assert_eq!(get_pin(finished(false, &[0xff])), Err(SecretError::Failed));
}

#[test]
fn tool_without_output_is_empty() {
    assert_eq!(get_pin(finished(true, b"")), Err(SecretError::Empty));
}

#[test]
fn output_that_is_no_text_is_invalid() {
    assert_eq!(get_pin(finished(true, &[0xff])), Err(SecretError::InvalidEncoding));
    assert_eq!(get_pin(finished(true, &[b'p', 0xc3])), Err(SecretError::InvalidEncoding));
    assert_eq!(get_pin(finished(true, &[0xed, 0xa0, 0x80])), Err(SecretError::InvalidEncoding));
    assert_eq!(get_pin(finished(true, &[0xc0, 0xaf])), Err(SecretError::InvalidEncoding));
}

#[test]
fn line_break_inside_a_character_is_invalid() {
    // The bytes of 'é' with a line feed between them: taking the line feed out first would mend them.
    assert_eq!(get_pin(finished(true, &[0xc3, b'\n', 0xa9])), Err(SecretError::InvalidEncoding));
}
