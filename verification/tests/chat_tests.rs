use chatbox::chat::{
    copy_chat_items, delete_chat_item, get_cache, is_stop_chat, push_question,
    remove_current_chats_first, remove_current_chats_last, retry_question, send_input_text,
    set_stop_chat, stream_text, toggle_mark_chat_item, update_cache, ChatCache, ChatItem,
    HistoryChat, StopChats, StreamOutcome, StreamTextItem, LOADING_STRING,
};

fn item(uuid: &str, utext: &str, btext: &str) -> ChatItem {
    ChatItem {
        uuid: uuid.to_string(),
        utext: utext.to_string(),
        btext: btext.to_string(),
        timestamp: "2023-01-01 00:00:00".to_string(),
        etext: String::new(),
        is_mark: false,
        utext_items: vec![],
        btext_items: vec![],
    }
}

fn piece(suuid: &str, uuid: &str, text: Option<&str>, etext: Option<&str>, finished: bool) -> StreamTextItem {
    StreamTextItem {
        text: text.map(|t| t.to_string()),
        etext: etext.map(|t| t.to_string()),
        suuid: suuid.to_string(),
        uuid: uuid.to_string(),
        finished,
    }
}

#[test]
fn stop_chat_marks_one_session() {
    let mut stops = StopChats::new();
    assert!(!is_stop_chat(&stops, "s1"));
    set_stop_chat(&mut stops, "s1".to_string(), true);
    set_stop_chat(&mut stops, "s1".to_string(), true);
    assert!(is_stop_chat(&stops, "s1"));
    assert!(!is_stop_chat(&stops, "s2"));
    set_stop_chat(&mut stops, "s1".to_string(), false);
    assert!(!is_stop_chat(&stops, "s1"));
}

#[test]
fn cache_gathers_pieces_of_one_item() {
    let mut cache = ChatCache::new();
    update_cache(&mut cache, "s".to_string(), "u1".to_string(), "Hel".to_string());
    update_cache(&mut cache, "s".to_string(), "u1".to_string(), "lo".to_string());
    update_cache(&mut cache, "t".to_string(), "v".to_string(), "other".to_string());
    assert_eq!(get_cache(&mut cache, "s"), Some(("u1".to_string(), "Hello".to_string())));
    assert_eq!(get_cache(&mut cache, "s"), None);
    assert_eq!(get_cache(&mut cache, "t"), Some(("v".to_string(), "other".to_string())));
}

#[test]
fn cache_new_item_replaces_text() {
    let mut cache = ChatCache::new();
    update_cache(&mut cache, "s".to_string(), "u1".to_string(), "old".to_string());
    update_cache(&mut cache, "s".to_string(), "u2".to_string(), "new".to_string());
    assert_eq!(get_cache(&mut cache, "s"), Some(("u2".to_string(), "new".to_string())));
}

#[test]
fn push_question_appends_loading_item() {
    let mut datas = vec![item("a", "q", "r")];
    assert!(!push_question(&mut datas, "  \n", "u".to_string(), "t".to_string()));
    assert_eq!(datas.len(), 1);
    assert!(push_question(&mut datas, "hi", "u".to_string(), "t".to_string()));
    let last = datas.last().unwrap();
    assert_eq!(last.utext, "hi");
    assert_eq!(last.btext, LOADING_STRING);
    assert_eq!(last.uuid, "u");
    assert_eq!(last.timestamp, "t");
    assert_eq!(last.utext_items.len(), 1);
    assert_eq!(last.btext_items[0].text, "Thinking...");
}

#[test]
fn send_input_text_uses_a_new_uuid() {
    let mut datas = vec![item("a", "q", "r")];
    let mut stops = StopChats::new();
    set_stop_chat(&mut stops, "s".to_string(), true);
    assert!(send_input_text(&mut datas, &mut stops, "s", " ").is_none());
    assert!(is_stop_chat(&stops, "s"));
    let h = send_input_text(&mut datas, &mut stops, "s", "question").unwrap();
    assert!(!is_stop_chat(&stops, "s"));
    assert_eq!(datas.len(), 2);
    let uuid = &datas[1].uuid;
    assert_eq!(uuid.len(), 36);
    assert_eq!(uuid.as_bytes()[8], b'-');
    assert_eq!(uuid.as_bytes()[14], b'4');
    assert!(matches!(uuid.as_bytes()[19], b'8' | b'9' | b'a' | b'b'));
    let ts = datas[1].timestamp.as_bytes();
    let n = ts.len();
    assert!(n >= 19);
    assert_eq!((ts[n - 15], ts[n - 12], ts[n - 9], ts[n - 6], ts[n - 3]), (b'-', b'-', b' ', b':', b':'));
    assert!(ts[n - 2].is_ascii_digit() && ts[n - 1].is_ascii_digit());
    assert_ne!(uuid, "a");
    assert_eq!(h.items.len(), 2);
    assert_eq!(h.items[1].utext, "question");
    assert_eq!(h.items[1].btext, "Thinking...");
    assert_eq!(&h.items[1].uuid, uuid);
}

#[test]
fn retry_takes_the_last_question() {
    let mut datas = vec![item("a", "q1", "r1"), item("b", "q2", "r2")];
    assert_eq!(retry_question(&mut datas), Some("q2".to_string()));
    assert_eq!(datas.len(), 1);
    let mut empty: Vec<ChatItem> = vec![];
    assert_eq!(retry_question(&mut empty), None);
}

#[test]
fn delete_and_toggle_chat_items() {
    let datas = vec![item("a", "1", ""), item("b", "2", ""), item("a", "3", "")];
    let kept = delete_chat_item(copy_chat_items(&datas), "a");
    assert_eq!(kept.len(), 1);
    assert_eq!(kept[0].uuid, "b");
    assert_eq!(delete_chat_item(copy_chat_items(&datas), "  ").len(), 3);
    let marked = toggle_mark_chat_item(copy_chat_items(&datas), "b");
    assert!(!marked[0].is_mark && marked[1].is_mark && !marked[2].is_mark);
    let back = toggle_mark_chat_item(marked, "b");
    assert!(!back[1].is_mark);
}

#[test]
fn remove_first_and_last_chat() {
    let mut datas = vec![item("a", "1", ""), item("b", "2", ""), item("c", "3", "")];
    remove_current_chats_first(&mut datas);
    assert_eq!(datas[0].uuid, "b");
    remove_current_chats_last(&mut datas);
    assert_eq!(datas.len(), 1);
    assert_eq!(datas[0].uuid, "b");
    let mut empty: Vec<ChatItem> = vec![];
    remove_current_chats_first(&mut empty);
    remove_current_chats_last(&mut empty);
    assert!(empty.is_empty());
}

#[test]
fn stream_text_updates_the_answer() {
    let mut datas = vec![item("u1", "q", LOADING_STRING)];
    let mut cache = ChatCache::new();
    let mut stops = StopChats::new();
    let r = stream_text(&mut datas, "s", &mut cache, &mut stops, piece("s", "u1", Some("  Hel"), None, false));
    assert!(matches!(r, StreamOutcome::Updated));
    assert_eq!(datas[0].btext, "Hel");
    let r = stream_text(&mut datas, "s", &mut cache, &mut stops, piece("s", "u1", Some("lo\n```\nx\n```"), None, false));
    assert!(matches!(r, StreamOutcome::Updated));
    assert_eq!(datas[0].btext, "Hello\n```\nx\n```");
    assert_eq!(datas[0].btext_items.len(), 2);
    assert_eq!(datas[0].btext_items[1].text_type, "code");
}

#[test]
fn stream_text_other_outcomes() {
    let mut datas = vec![item("u1", "q", "a")];
    let mut cache = ChatCache::new();
    let mut stops = StopChats::new();
    let r = stream_text(&mut datas, "s", &mut cache, &mut stops, piece("s", "u1", None, None, true));
    assert!(matches!(r, StreamOutcome::Redraw));
    let r = stream_text(&mut datas, "s", &mut cache, &mut stops, piece("s", "u1", Some("x"), Some("boom"), false));
    assert!(matches!(r, StreamOutcome::ShowError(ref e) if e == "boom"));
    let r = stream_text(&mut datas, "s", &mut cache, &mut stops, piece("s", "u1", None, None, false));
    assert!(matches!(r, StreamOutcome::Ignored));
    let r = stream_text(&mut datas, "s", &mut cache, &mut stops, piece("s", "u9", Some("x"), None, false));
    assert!(matches!(r, StreamOutcome::Ignored));
    assert_eq!(datas[0].btext, "a");
    let r = stream_text(&mut datas, "s", &mut cache, &mut stops, piece("t", "v", Some("bg"), None, false));
    assert!(matches!(r, StreamOutcome::Cached));
    assert_eq!(get_cache(&mut cache, "t"), Some(("v".to_string(), "bg".to_string())));
    let mut empty: Vec<ChatItem> = vec![];
    let r = stream_text(&mut empty, "s", &mut cache, &mut stops, piece("s", "u1", Some("x"), None, false));
    assert!(matches!(r, StreamOutcome::Stopped));
    assert!(is_stop_chat(&stops, "s"));
}

#[test]
fn history_from_chat_items() {
    let datas = vec![item("a", "q1", "r1"), item("b", "q2", "r2")];
    let h = HistoryChat::from(&datas);
    assert_eq!(h.items.len(), 2);
    assert_eq!(h.items[0].utext, "q1");
    assert_eq!(h.items[1].btext, "r2");
    assert_eq!(h.items[1].uuid, "b");
}
