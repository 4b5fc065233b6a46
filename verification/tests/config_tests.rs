use chatbox::config::{
    audio_configured, init, load, openai, proxy_url, setting_u16, setting_u32, tr, Audio,
    ClientType, Config, OpenAi, OpenAiChat, Socks5, UI,
};

fn sample_config() -> Config<f32> {
    Config {
        working_dir: String::new(),
        config_path: String::new(),
        db_path: String::new(),
        cache_dir: "c".to_string(),
        cache_audio_dir: "ca".to_string(),
        ui: UI::default(),
        socks5: Socks5::default(),
        openai: OpenAi {
            request_timeout: 30,
            stream_timeout: 15,
            api_key: "k".to_string(),
            chat: OpenAiChat {
                url: "https://api.openai.com/v1/chat/completions".to_string(),
                model: "gpt-3.5-turbo".to_string(),
                max_tokens: 1024,
                temperature: 0.8,
                frequency_penalty: 0.5,
                presence_penalty: 0.0,
            },
        },
        audio: Audio::default(),
    }
}

#[test]
fn defaults() {
    let ui = UI::default();
    assert_eq!((ui.font_size, ui.win_width, ui.win_height), (18, 1200, 800));
    assert_eq!(ui.language, "cn");
    let s = Socks5::default();
    assert!(!s.enabled);
    assert_eq!(s.url, "127.0.0.1");
    assert_eq!(s.port, 1080);
    let a = Audio::default();
    assert_eq!(a.current_input_device, "default");
    assert!(!audio_configured(&a));
    let b = Audio { region: "r".to_string(), api_key: "k".to_string(), ..a };
    assert!(audio_configured(&b));
}

#[test]
fn proxy_only_for_chosen_services() {
    let mut s = Socks5::default();
    assert_eq!(proxy_url(&s, ClientType::OpenAI), None);
    s.enabled = true;
    s.openai = true;
    assert_eq!(proxy_url(&s, ClientType::OpenAI), Some("socks5://127.0.0.1:1080".to_string()));
    assert_eq!(proxy_url(&s, ClientType::Azure), None);
    assert_eq!(proxy_url(&s, ClientType::Local), None);
    s.azure = true;
    s.port = 7;
    assert_eq!(proxy_url(&s, ClientType::Azure), Some("socks5://127.0.0.1:7".to_string()));
}

#[test]
fn settings_numbers_parse_or_fall_back() {
    assert_eq!(setting_u32("42", 18), 42);
    assert_eq!(setting_u32("+7", 18), 7);
    assert_eq!(setting_u32("", 18), 18);
    assert_eq!(setting_u32("+", 18), 18);
    assert_eq!(setting_u32("-1", 18), 18);
    assert_eq!(setting_u32("12a", 18), 18);
    assert_eq!(setting_u32("4294967295", 18), 4294967295);
    assert_eq!(setting_u32("4294967296", 18), 18);
    assert_eq!(setting_u16("65535", 1080), 65535);
    assert_eq!(setting_u16("65536", 1080), 1080);
    assert_eq!(setting_u16("0800", 1080), 800);
}

#[test]
fn settings_numbers_agree_with_std_parse() {
    for t in ["0", "007", "+12", "1 ", " 1", "99999999999", "x", "+-1", "3000000000"] {
        assert_eq!(setting_u32(t, 5), t.parse::<u32>().unwrap_or(5));
        assert_eq!(setting_u16(t, 5), t.parse::<u16>().unwrap_or(5));
    }
}

#[test]
fn interface_text_in_english() {
    assert_eq!(tr("cn", "删除成功"), "删除成功");
    assert_eq!(tr("en", "删除成功"), "Delete Success");
    assert_eq!(tr("en", "没有可归档的对话"), "No Chats TO Be Archived");
    assert_eq!(tr("en", "原因"), "Reason");
    assert_eq!(tr("en", "未知"), "未知");
}

#[test]
fn config_paths_and_openai() {
    let mut c = sample_config();
    init(&mut c, "/home/u/.config/chatbox", "/home/u/.local/share/chatbox", "/opt/chatbox/bin/chatbox");
    assert_eq!(c.config_path, "/home/u/.config/chatbox/chatbox.conf");
    assert_eq!(c.db_path, "/home/u/.local/share/chatbox/chatbox.db");
    assert_eq!(c.working_dir, "/opt/chatbox/bin");
    let o = openai(&c);
    assert_eq!(o.api_key, "k");
    assert_eq!(o.chat.temperature, 0.8);
    let mut saved = sample_config();
    saved.openai.api_key = "saved".to_string();
    saved.cache_dir = "other".to_string();
    saved.cache_audio_dir = "other".to_string();
    saved.ui.language = "en".to_string();
    assert!(!load(&mut c, Some(saved)));
    assert_eq!(c.openai.api_key, "saved");
    assert_eq!(c.cache_dir, "c");
    assert_eq!(c.cache_audio_dir, sample_config().cache_audio_dir);
    assert_eq!(c.ui.language, sample_config().ui.language);
    assert_eq!(c.config_path, "/home/u/.config/chatbox/chatbox.conf");
    assert!(load(&mut c, None));
    assert_eq!(c.openai.api_key, "saved");
}
