use chatbox::render::{parse_chat_text, CodeTextItem};

fn blocks(items: &[CodeTextItem]) -> Vec<(String, String)> {
    items.iter().map(|b| (b.text_type.clone(), b.text.clone())).collect()
}

fn pairs(v: &[(&str, &str)]) -> Vec<(String, String)> {
    v.iter().map(|(a, b)| (a.to_string(), b.to_string())).collect()
}

#[test]
fn plain_lines_form_one_block() {
    let r = parse_chat_text("hello\nworld");
    assert_eq!(blocks(&r), pairs(&[("plain", "hello\nworld")]));
}

#[test]
fn fenced_code_block_is_split_out() {
    let r = parse_chat_text("text\n```rust\nlet a = 1;\n```\nafter");
    assert_eq!(
        blocks(&r),
        pairs(&[("plain", "text"), ("code", "let a = 1;"), ("plain", "after")])
    );
}

#[test]
fn list_items_get_a_bullet() {
    let r = parse_chat_text("- one\n  - two");
    assert_eq!(
        blocks(&r),
        pairs(&[("list-item", "\u{26AB} one"), ("list-item", "  \u{26AB} two")])
    );
}

#[test]
fn list_item_closes_a_plain_block() {
    let r = parse_chat_text("intro\n- a\nmore");
    assert_eq!(
        blocks(&r),
        pairs(&[("plain", "intro"), ("list-item", "\u{26AB} a"), ("plain", "more")])
    );
}

#[test]
fn dashes_inside_code_stay() {
    let r = parse_chat_text("```\n- a\n```");
    assert_eq!(blocks(&r), pairs(&[("code", "- a")]));
}

#[test]
fn empty_text_has_no_block() {
    assert!(parse_chat_text("").is_empty());
}

#[test]
fn trailing_whitespace_is_dropped() {
    let r = parse_chat_text("a  \r\nb \t\n\n");
    assert_eq!(blocks(&r), pairs(&[("plain", "a  \nb")]));
}

#[test]
fn blank_line_block_is_empty_after_trim() {
    let r = parse_chat_text("   ");
    assert_eq!(blocks(&r), pairs(&[("plain", "")]));
}

#[test]
fn unclosed_fence_keeps_the_code() {
    let r = parse_chat_text("  ```py\nx = 1\ny = 2");
    assert_eq!(blocks(&r), pairs(&[("code", "x = 1\ny = 2")]));
}

#[test]
fn rendered_blocks_are_well_formed() {
    let text = "p\n\n- l1 \n```\nc  \n```\n  - l2\nq\t";
    for b in parse_chat_text(text) {
        assert!(b.text_type == "plain" || b.text_type == "code" || b.text_type == "list-item");
        assert_eq!(b.text, b.text.trim_end());
    }
}
