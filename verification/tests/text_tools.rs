use melbi::position::{offset_to_position, Position};
use melbi::values::escape_string;
use melbi::vm::stack::Stack;

#[test]
fn position_counts_lines_and_columns() {
    let p = offset_to_position("ab\ncd", 4);
    assert_eq!(p, Position { line: 1, character: 1 });
    assert_eq!(offset_to_position("ab\ncd", 0), Position { line: 0, character: 0 });
    assert_eq!(offset_to_position("ab\ncd", 3), Position { line: 1, character: 0 });
}

#[test]
fn position_past_the_end_is_the_end() {
    assert_eq!(offset_to_position("ab\ncd", 99), Position { line: 1, character: 2 });
    assert_eq!(offset_to_position("", 5), Position { line: 0, character: 0 });
}

#[test]
fn position_counts_characters_not_bytes() {
    // 'é' takes two bytes, '€' three.
    let text = "é€x\ny";
    assert_eq!(offset_to_position(text, 2), Position { line: 0, character: 1 });
    assert_eq!(offset_to_position(text, 5), Position { line: 0, character: 2 });
    // An offset inside a character still reads that whole character.
    assert_eq!(offset_to_position(text, 3), Position { line: 0, character: 2 });
    assert_eq!(offset_to_position(text, 7), Position { line: 1, character: 0 });
}

#[test]
fn escape_string_short_escapes() {
    assert_eq!(escape_string("a\"b\\c"), "a\\\"b\\\\c");
    assert_eq!(escape_string("line\nnext\r\ttab"), "line\\nnext\\r\\ttab");
    assert_eq!(escape_string("plain"), "plain");
    assert_eq!(escape_string(""), "");
}

#[test]
fn escape_string_control_characters() {
    assert_eq!(escape_string("\u{0}"), "\\u{0000}");
    assert_eq!(escape_string("a\u{1b}b"), "a\\u{001b}b");
    assert_eq!(escape_string("\u{7f}\u{9f}"), "\\u{007f}\\u{009f}");
    assert_eq!(escape_string("\u{a0}é"), "\u{a0}é");
}

#[test]
fn stack_index_counts_from_the_top() {
    let mut stack = Stack::new(100);
    stack.push(10);
    stack.push(20);
    stack.push(30);
    assert_eq!(stack[0], 30);
    assert_eq!(stack[1], 20);
    assert_eq!(stack[2], 10);
}

use melbi::types::registry::TypeCapabilities;
use melbi::values::TypeError;

#[test]
fn type_error_display_names() {
    assert_eq!(TypeError::Mismatch.to_string(), "Mismatch");
    assert_eq!(TypeError::IndexOutOfBounds.to_string(), "IndexOutOfBounds");
    assert_eq!(format!("{:?}", TypeError::Mismatch), TypeError::Mismatch.to_string());
}

struct Money;

impl TypeCapabilities for Money {
    fn supports_operation(&self, operation: &str) -> bool {
        operation == "add"
    }
}

#[test]
fn custom_type_capabilities() {
    assert!(Money.supports_operation("add"));
    assert!(!Money.supports_operation("index"));
}

use melbi::types::effects::Effects;

#[test]
fn effect_markers() {
    assert_eq!(Effects::total().to_string(), "");
    assert_eq!(Effects::error().to_string(), "!");
    assert_eq!(Effects::impure().to_string(), "~");
    assert_eq!(Effects::both().to_string(), "~!");
    assert_eq!(Effects::error().union(Effects::impure()).to_string(), "~!");
}
