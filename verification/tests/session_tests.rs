use chatbox::chat::{
    stream_text, update_cache, ChatCache, ChatItem, StopChats, StreamOutcome, StreamTextItem,
    LOADING_STRING,
};
use chatbox::session::{
    archive_list, current_session_config, delete_archive_item, delete_session, inst_tips,
    new_session, restore_session, save_edit_session, session_chats_text, session_index,
    shortcut_switch, sort_sessions, switch_session, toggle_mark_session, ArchiveChatItem,
    ChatSession, SessionChat, SessionChats, SessionConfig, DEFAULT_SESSION_UUID,
};

fn chat(uuid: &str, utext: &str, btext: &str) -> ChatItem {
    ChatItem {
        uuid: uuid.to_string(),
        utext: utext.to_string(),
        btext: btext.to_string(),
        timestamp: String::new(),
        etext: String::new(),
        is_mark: false,
        utext_items: vec![],
        btext_items: vec![],
    }
}

fn session(uuid: &str, name: &str, is_mark: bool, inst: &str) -> ChatSession {
    ChatSession {
        uuid: uuid.to_string(),
        name: name.to_string(),
        system_prompt: format!("prompt {}", name),
        api_model: "ChatGPT chat-3.5-turbo".to_string(),
        shortcut_instruction: inst.to_string(),
        use_history: true,
        is_mark,
        icon_index: 1,
        chat_items: vec![],
    }
}

fn config(name: &str) -> SessionConfig {
    SessionConfig {
        name: name.to_string(),
        system_prompt: "sp".to_string(),
        api_model: "Azure chat-35-turbo".to_string(),
        shortcut_instruction: "/x".to_string(),
        use_history: false,
        is_mark: true,
        icon_index: 7,
    }
}

fn names(v: &[ChatSession]) -> Vec<String> {
    v.iter().map(|s| s.name.clone()).collect()
}

#[test]
fn sessions_sort_default_marked_then_by_name() {
    let v = vec![
        session("1", "zeta", false, ""),
        session("2", "Beta", true, ""),
        session(DEFAULT_SESSION_UUID, "Default", false, ""),
        session("3", "alpha", false, ""),
        session("4", "Alpha2", true, ""),
    ];
    let sorted = sort_sessions(v);
    assert_eq!(names(&sorted), vec!["Default", "Alpha2", "Beta", "alpha", "zeta"]);
}

#[test]
fn sort_keeps_every_session() {
    let v = vec![session("1", "b", false, ""), session("2", "B", false, ""), session("3", "a", false, "")];
    let sorted = sort_sessions(v);
    assert_eq!(sorted.len(), 3);
    assert_eq!(sorted[0].uuid, "3");
}

#[test]
fn default_session_is_never_deleted() {
    let v = vec![session(DEFAULT_SESSION_UUID, "d", false, ""), session("1", "a", false, "")];
    assert!(delete_session(v.clone(), DEFAULT_SESSION_UUID).is_none());
    let left = delete_session(v, "1").unwrap();
    assert_eq!(left.len(), 1);
    assert_eq!(left[0].uuid, DEFAULT_SESSION_UUID);
}

#[test]
fn toggle_and_edit_sessions() {
    let v = vec![session("1", "a", false, ""), session("2", "b", false, "")];
    let t = toggle_mark_session(v, "2");
    assert!(!t[0].is_mark && t[1].is_mark);
    let i = session_index(&t, "2").unwrap();
    assert_eq!(i, 1);
    assert!(session_index(&t, "9").is_none());
    let e = save_edit_session(t, "1", &config("renamed"));
    assert_eq!(e[0].name, "renamed");
    assert_eq!(e[0].icon_index, 7);
    assert!(!e[0].use_history);
    assert!(!e[0].is_mark);
    assert_eq!(e[0].uuid, "1");
    assert_eq!(e[1].name, "b");
}

#[test]
fn current_session_settings() {
    let v = vec![session("1", "a", false, "/a"), session("2", "b", false, "/b")];
    let (sp, model, inst, hist) = current_session_config(&v, "2");
    assert_eq!(sp, "prompt b");
    assert_eq!(model, "ChatGPT chat-3.5-turbo");
    assert_eq!(inst, "/b");
    assert!(hist);
}

#[test]
fn new_session_has_new_uuid() {
    let s = new_session(&config("n"));
    assert_eq!(s.uuid.len(), 36);
    assert_eq!(s.name, "n");
    assert!(!s.is_mark);
    assert!(s.chat_items.is_empty());
}

#[test]
fn saved_session_restores() {
    let saved = SessionChats {
        chats: vec![SessionChat {
            uuid: "c1".to_string(),
            utext: "q".to_string(),
            btext: "- a\n- b".to_string(),
            timestamp: "ts".to_string(),
            is_mark: true,
        }],
    };
    let s = restore_session("s1".to_string(), &config("name"), &saved);
    assert_eq!(s.uuid, "s1");
    assert!(s.is_mark);
    assert_eq!(s.chat_items.len(), 1);
    assert_eq!(s.chat_items[0].btext_items.len(), 2);
    assert!(s.chat_items[0].is_mark);
    let back = SessionChats::from(&s.chat_items);
    assert_eq!(back.chats[0].btext, "- a\n- b");
    let c = SessionConfig::from(&s);
    assert_eq!(c.name, "name");
    assert_eq!(c.icon_index, 7);
}

#[test]
fn switch_session_takes_in_cached_text() {
    let mut a = session("a", "A", false, "");
    a.chat_items = vec![chat("x", "q", "old")];
    let mut b = session("b", "B", false, "");
    b.chat_items = vec![chat("y", "q2", LOADING_STRING)];
    let mut sessions = vec![a, b];
    let mut datas = vec![chat("x", "q", "shown")];
    let mut cache = ChatCache::new();
    update_cache(&mut cache, "b".to_string(), "y".to_string(), "  answer".to_string());
    let r = switch_session(&mut sessions, &mut datas, &mut cache, "a", "b");
    assert_eq!(r, Some(1));
    assert_eq!(sessions[0].chat_items[0].btext, "shown");
    assert_eq!(datas.len(), 1);
    assert_eq!(datas[0].btext, "answer");
    assert_eq!(sessions[1].chat_items[0].btext, "answer");
    let r = switch_session(&mut sessions, &mut datas, &mut cache, "b", "b");
    assert_eq!(r, None);
    let r = switch_session(&mut sessions, &mut datas, &mut cache, "b", "");
    assert_eq!(r, None);
}

#[test]
fn shortcut_switch_strips_the_instruction() {
    let v = vec![session("1", "a", false, ""), session("2", "tr", false, "/tr")];
    let (i, q) = shortcut_switch(&v, "/tr/tr  hello").unwrap();
    assert_eq!(i, 1);
    assert_eq!(q, "hello");
    assert!(shortcut_switch(&v, "hello").is_none());
}

#[test]
fn instruction_tips_match_prefix() {
    let v = vec![
        session("1", "one", false, "/trans"),
        session("2", "two", false, "/tr"),
        session("3", "three", false, "/x"),
    ];
    let tips = inst_tips("  /tr", "2", &v);
    assert_eq!(tips.len(), 1);
    assert_eq!(tips[0].inst, "/trans");
    assert_eq!(tips[0].session_name, "one");
    assert!(inst_tips("/tr x", "9", &v).is_empty());
    assert!(inst_tips("   ", "9", &v).is_empty());
    assert_eq!(inst_tips("/", "9", &v).len(), 3);
}

#[test]
fn chats_copy_text() {
    let d = vec![chat("1", "hi", "hello"), chat("2", "q", "a")];
    assert_eq!(session_chats_text(&d), "user:\nhi\n\nbot:\nhello\n\nuser:\nq\n\nbot:\na\n\n");
}

#[test]
fn archive_list_filters_and_orders() {
    let items = vec![
        ("u1".to_string(), "beta notes".to_string()),
        ("u2".to_string(), "Alpha notes".to_string()),
        ("u3".to_string(), "gamma".to_string()),
    ];
    let all = archive_list(items.clone(), "");
    let n: Vec<String> = all.iter().map(|a| a.name.clone()).collect();
    assert_eq!(n, vec!["Alpha notes", "beta notes", "gamma"]);
    let some = archive_list(items, "notes");
    assert_eq!(some.len(), 2);
    let left = delete_archive_item(
        vec![
            ArchiveChatItem { name: "a".to_string(), uuid: "1".to_string() },
            ArchiveChatItem { name: "b".to_string(), uuid: "2".to_string() },
        ],
        "1",
    );
    assert_eq!(left.len(), 1);
    assert_eq!(left[0].uuid, "2");
}

fn piece(suuid: &str, uuid: &str, text: &str) -> StreamTextItem {
    StreamTextItem {
        text: Some(text.to_string()),
        etext: None,
        suuid: suuid.to_string(),
        uuid: uuid.to_string(),
        finished: false,
    }
}

#[test]
fn background_text_is_kept_until_switched_back() {
    let mut a = session("a", "A", false, "");
    a.chat_items = vec![chat("x", "q", "old")];
    let mut b = session("b", "B", false, "");
    b.chat_items = vec![chat("y", "q2", "Hello")];
    let mut sessions = vec![a, b];
    let mut datas = sessions[0].chat_items.clone();
    let mut cache = ChatCache::new();
    let mut stops = StopChats::new();
    for t in [", wor", "ld"] {
        let r = stream_text(&mut datas, "a", &mut cache, &mut stops, piece("b", "y", t));
        assert!(matches!(r, StreamOutcome::Cached));
    }
    assert_eq!(datas[0].btext, "old");
    let r = switch_session(&mut sessions, &mut datas, &mut cache, "a", "b");
    assert_eq!(r, Some(1));
    assert_eq!(datas[0].btext, "Hello, world");
    assert_eq!(datas[0].btext_items.len(), 1);
    assert_eq!(datas[0].btext_items[0].text, "Hello, world");
}

#[test]
fn sort_keeps_the_order_of_equal_names() {
    let mut a = session("a", "Notes", true, "");
    a.system_prompt = "first".to_string();
    let mut b = session("b", "notes", true, "");
    b.system_prompt = "second".to_string();
    let c = session("c", "Apple", true, "");
    let mut d = session("d", "NOTES", false, "");
    d.system_prompt = "third".to_string();
    let sorted = sort_sessions(vec![a, d, b, c]);
    let uuids: Vec<String> = sorted.iter().map(|s| s.uuid.clone()).collect();
    assert_eq!(uuids, vec!["c", "a", "b", "d"]);
    let sorted = sort_sessions(vec![session("y", "x", false, ""), session("z", "X", false, "")]);
    let uuids: Vec<String> = sorted.iter().map(|s| s.uuid.clone()).collect();
    assert_eq!(uuids, vec!["y", "z"]);
}

#[test]
fn archive_list_keeps_the_order_of_equal_names() {
    let items = vec![
        ("u1".to_string(), "Log".to_string()),
        ("u2".to_string(), "a".to_string()),
        ("u3".to_string(), "log".to_string()),
        ("u4".to_string(), "LOG".to_string()),
    ];
    let uuids: Vec<String> = archive_list(items, "").iter().map(|a| a.uuid.clone()).collect();
    assert_eq!(uuids, vec!["u2", "u1", "u3", "u4"]);
}
