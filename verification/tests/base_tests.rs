use chatbox::base::{code_line_text, confirms_chat_item_delete, leading_spaces, line_count, list_item_trim};

#[test]
fn line_counts() {
    assert_eq!(line_count(""), 0);
    assert_eq!(line_count("a"), 1);
    assert_eq!(line_count("a\nb\n"), 2);
    assert_eq!(line_count("a\r\n\nb"), 3);
}

#[test]
fn code_line_numbers() {
    assert_eq!(code_line_text("one line"), "");
    assert_eq!(code_line_text("a\nb"), "01\n02\n03");
    let text = "x\n".repeat(8);
    let expect: Vec<String> = (1..=12).map(|i| format!("{:02}", i)).collect();
    assert_eq!(code_line_text(&text), expect.join("\n"));
}

#[test]
fn list_item_text() {
    assert_eq!(list_item_trim("  - item  "), "item");
    assert_eq!(list_item_trim("a-b"), "a b");
    assert_eq!(list_item_trim(" plain "), "plain");
}

#[test]
fn leading_space_text() {
    assert_eq!(leading_spaces("   x "), "   ");
    assert_eq!(leading_spaces("\tx"), "");
    assert_eq!(leading_spaces(""), "");
}

#[test]
fn confirm_dialog_kind() {
    assert!(confirms_chat_item_delete("chat-item"));
    assert!(!confirms_chat_item_delete("session"));
}
