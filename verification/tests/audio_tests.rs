use chatbox::audio::{
    audio_file_path, keep_recording, make_text, play_source, recognition_failed,
    recognized_question, set_recording, split_text, stt_url, tts_body, tts_url, PlaySource,
    RecordingFlag, Speech2Text, TextType,
};

#[test]
fn split_text_separates_languages() {
    let items = split_text("Hello 你好");
    assert_eq!(items.len(), 2);
    assert_eq!(items[0].text_type, TextType::EnUs);
    assert_eq!(items[0].text, "Hello.");
    assert_eq!(items[1].text_type, TextType::ZhCn);
    assert_eq!(items[1].text, "你好\u{3002}");
}

#[test]
fn split_text_drops_runs_of_punctuation() {
    assert!(split_text("!!! ,,, \n").is_empty());
    let items = split_text("...好!");
    assert_eq!(items.len(), 1);
    assert_eq!(items[0].text, "好\u{3002}");
}

#[test]
fn split_text_runs_cover_text_in_turn() {
    let items = split_text("a你b好c");
    let kinds: Vec<TextType> = items.iter().map(|i| i.text_type).collect();
    assert_eq!(
        kinds,
        vec![TextType::EnUs, TextType::ZhCn, TextType::EnUs, TextType::ZhCn, TextType::EnUs]
    );
    let texts: Vec<String> = items.iter().map(|i| i.text.clone()).collect();
    assert_eq!(texts, vec!["a.", "你\u{3002}", "b.", "好\u{3002}", "c."]);
}

#[test]
fn make_text_wraps_each_item() {
    assert_eq!(
        make_text("Hi 世界"),
        "<lang xml:lang='en-US'> Hi. </lang><lang xml:lang='zh-CN'> 世界\u{3002} </lang>"
    );
    assert_eq!(make_text(""), "");
}

#[test]
fn speech_urls() {
    assert_eq!(
        tts_url("eastasia"),
        "https://eastasia.tts.speech.microsoft.com/cognitiveservices/v1"
    );
    assert_eq!(
        stt_url("eastasia", "en"),
        "https://eastasia.stt.speech.microsoft.com/speech/recognition/conversation/cognitiveservices/v1?language=en-US&format=simple"
    );
    assert_eq!(
        stt_url("westus", "cn"),
        "https://westus.stt.speech.microsoft.com/speech/recognition/conversation/cognitiveservices/v1?language=zh-CN&format=simple"
    );
}

#[test]
fn tts_body_wraps_ssml() {
    assert_eq!(
        tts_body("X"),
        "<speak version='1.0' xml:lang='en-US'>\n            <voice name='en-US-JennyMultilingualNeural'>\n                X\n            </voice>\n        </speak>"
    );
}

#[test]
fn audio_file_path_and_source() {
    assert_eq!(audio_file_path("/tmp/a", "x.mp3"), "/tmp/a/x.mp3");
    assert_eq!(audio_file_path("/tmp/a", ""), "");
    assert_eq!(play_source("/tmp/a/x.mp3", true, "t"), PlaySource::LocalFile);
    assert_eq!(play_source("/tmp/a/x.mp3", false, "t"), PlaySource::Synthesize);
    assert_eq!(play_source("", true, "t"), PlaySource::Synthesize);
    assert_eq!(play_source("/tmp/a/x.mp3", false, ""), PlaySource::Nothing);
}

#[test]
fn recognition_results() {
    let ok = Speech2Text {
        recognition_status: "Success".to_string(),
        offset: 0,
        duration: 10,
        display_text: "hi".to_string(),
    };
    assert!(!recognition_failed(&ok));
    let bad = Speech2Text { recognition_status: "NoMatch".to_string(), ..ok.clone() };
    assert!(recognition_failed(&bad));
    assert_eq!(recognized_question("  ", "hello"), "hello");
    assert_eq!(recognized_question("Q:", "hello"), "Q:hello");
}

#[test]
fn recording_flag_and_time_limit() {
    let mut flag = RecordingFlag { is_recording: false };
    set_recording(&mut flag, true);
    assert!(flag.is_recording);
    assert!(keep_recording(&flag, 105, 100, 5));
    assert!(!keep_recording(&flag, 106, 100, 5));
    set_recording(&mut flag, false);
    assert!(!keep_recording(&flag, 100, 100, 5));
}
