use chatbox::chat::{HistoryChat, HistoryChatItem};
use chatbox::config::{OpenAi, OpenAiChat};
use chatbox::openai::{
    bearer, body_outcome, chunk_action, completion_request, error_message, event_payloads,
    is_done, pieces_well_formed, prepare_request, resolve_api_model, ChatCompletionChunk,
    ChunkAction, ChunkChoice, Error, OpenAIChat, Provider,
};
use chatbox::openai::{stream_step, BodyOutcome, StreamStep};
use chatbox::chat::{set_stop_chat, StopChats};

fn hist(items: &[(&str, &str, &str)]) -> HistoryChat {
    HistoryChat {
        items: items
            .iter()
            .map(|(u, b, id)| HistoryChatItem {
                utext: u.to_string(),
                btext: b.to_string(),
                uuid: id.to_string(),
            })
            .collect(),
    }
}

fn roles(c: &OpenAIChat) -> Vec<(String, String)> {
    c.message.iter().map(|m| (m.role.clone(), m.content.clone())).collect()
}

fn p(a: &str, b: &str) -> (String, String) {
    (a.to_string(), b.to_string())
}

#[test]
fn make_builds_the_messages() {
    let c = OpenAIChat::make("sys".to_string(), "now?".to_string(), hist(&[("q1", "a1", "1")]));
    assert_eq!(
        roles(&c),
        vec![p("system", "sys"), p("user", "q1"), p("assistant", "a1"), p("user", "now?")]
    );
    let c = OpenAIChat::make(String::new(), "q".to_string(), hist(&[]));
    assert_eq!(roles(&c), vec![p("system", ""), p("user", "q")]);
}

#[test]
fn prepare_request_with_and_without_history() {
    let h = hist(&[("q1", "a1", "1"), ("q2", "Thinking...", "2")]);
    let (c, id) = prepare_request("sys".to_string(), true, h.clone());
    assert_eq!(id, "2");
    assert_eq!(
        roles(&c),
        vec![p("system", "sys"), p("user", "q1"), p("assistant", "a1"), p("user", "q2")]
    );
    let (c, _) = prepare_request("sys".to_string(), false, h);
    assert_eq!(roles(&c), vec![p("system", "sys"), p("user", "q2")]);
}

#[test]
fn api_models_resolve() {
    assert_eq!(
        resolve_api_model("ChatGPT chat-3.5-turbo"),
        Ok((Provider::OpenAI, "gpt-3.5-turbo".to_string()))
    );
    assert_eq!(
        resolve_api_model("Azure chat-35-turbo"),
        Ok((Provider::Azure, "gpt-35-turbo".to_string()))
    );
    assert_eq!(
        resolve_api_model("ChatGPT gpt-4"),
        Err("unknown api model: ChatGPT gpt-4".to_string())
    );
    assert_eq!(
        resolve_api_model("Azure gpt-4"),
        Err("unknown api model: Azure gpt-4".to_string())
    );
}

#[test]
fn bearer_header() {
    assert_eq!(bearer("sk-1"), "Bearer sk-1");
}

#[test]
fn event_payloads_split_the_body() {
    let body = "data: {\"a\":1}\n\ndata: {\"b\":2}\n\n";
    assert_eq!(event_payloads(body), vec![" {\"a\":1}".to_string(), " {\"b\":2}".to_string()]);
    assert_eq!(event_payloads("event: x\n\ndata:y"), vec!["y".to_string()]);
    assert!(event_payloads("").is_empty());
    assert_eq!(event_payloads("data:a\n\n\ndata:b"), vec!["a".to_string()]);
    assert!(is_done("data: [DONE]\n\n"));
    assert!(!is_done("data: {}"));
}

fn chunk(delta: Vec<(String, String)>, finish: Option<&str>) -> ChatCompletionChunk {
    ChatCompletionChunk {
        id: "id".to_string(),
        object: "chat.completion.chunk".to_string(),
        created: 0,
        model: "m".to_string(),
        choices: vec![ChunkChoice { delta, index: 0, finish_reason: finish.map(|s| s.to_string()) }],
    }
}

#[test]
fn chunk_actions() {
    assert!(matches!(chunk_action(&chunk(vec![p("content", "Hi")], None)), ChunkAction::Text(ref t) if t == "Hi"));
    assert!(matches!(chunk_action(&chunk(vec![p("role", "assistant")], None)), ChunkAction::Skip));
    assert!(matches!(chunk_action(&chunk(vec![p("content", "x")], Some("stop"))), ChunkAction::Finish));
    let e = Error { error: vec![p("type", "t"), p("message", "bad key")] };
    assert_eq!(error_message(&e), Some("bad key".to_string()));
    assert_eq!(error_message(&Error { error: vec![] }), None);
}

#[test]
fn completion_request_takes_settings() {
    let conf: OpenAi<f32> = OpenAi {
        request_timeout: 30,
        stream_timeout: 15,
        api_key: "k".to_string(),
        chat: OpenAiChat {
            url: "u".to_string(),
            model: "m".to_string(),
            max_tokens: 512,
            temperature: 0.8,
            frequency_penalty: 0.5,
            presence_penalty: 0.0,
        },
    };
    let c = OpenAIChat::make("s".to_string(), "q".to_string(), hist(&[]));
    let r = completion_request(c, "gpt-3.5-turbo".to_string(), &conf);
    assert_eq!(r.model, "gpt-3.5-turbo");
    assert_eq!(r.max_tokens, 512);
    assert_eq!(r.temperature, 0.8);
    assert!(r.stream);
    assert_eq!(r.messages.len(), 2);
}

fn texts(items: &[chatbox::chat::StreamTextItem]) -> Vec<(Option<String>, Option<String>)> {
    items.iter().map(|x| (x.text.clone(), x.etext.clone())).collect()
}

#[test]
fn body_outcome_hands_on_texts_until_finish() {
    let pieces = vec![
        Ok(chunk(vec![p("role", "assistant")], None)),
        Ok(chunk(vec![p("content", "Hel")], None)),
        Ok(chunk(vec![p("content", "lo")], None)),
        Ok(chunk(vec![], Some("stop"))),
        Ok(chunk(vec![p("content", "never")], None)),
    ];
    assert!(pieces_well_formed(&pieces));
    let out = body_outcome("s", "u", "data: {}", None, pieces);
    assert!(!out.end);
    assert_eq!(
        texts(&out.items),
        vec![(Some("Hel".to_string()), None), (Some("lo".to_string()), None)]
    );
    assert!(out.items.iter().all(|x| x.suuid == "s" && x.uuid == "u" && !x.finished));
}

#[test]
fn body_outcome_stops_at_a_bad_piece() {
    let pieces = vec![
        Ok(chunk(vec![p("content", "a")], None)),
        Err("bad json".to_string()),
        Ok(chunk(vec![p("content", "b")], None)),
    ];
    let out = body_outcome("s", "u", "data: x", None, pieces);
    assert!(!out.end);
    assert_eq!(
        texts(&out.items),
        vec![(Some("a".to_string()), None), (None, Some("bad json".to_string()))]
    );
}

#[test]
fn body_outcome_ends_on_error_or_done() {
    let err = Error { error: vec![p("message", "quota"), p("type", "x")] };
    let out = body_outcome("s", "u", "{}", Some(err), vec![]);
    assert!(out.end);
    assert_eq!(texts(&out.items), vec![(None, Some("quota".to_string()))]);

    let out = body_outcome("s", "u", "{}", Some(Error { error: vec![p("type", "x")] }), vec![]);
    assert!(out.end);
    assert!(out.items.is_empty());

    let out = body_outcome("s", "u", "data: [DONE]\n\n", None, vec![Err("x".to_string())]);
    assert!(out.end);
    assert!(out.items.is_empty());
}

#[test]
fn pieces_without_choice_are_not_well_formed() {
    let empty = ChatCompletionChunk {
        id: String::new(),
        object: String::new(),
        created: 0,
        model: String::new(),
        choices: vec![],
    };
    assert!(!pieces_well_formed(&vec![Ok(chunk(vec![p("content", "a")], None)), Ok(empty.clone())]));
    assert!(pieces_well_formed(&vec![Ok(chunk(vec![], Some("stop"))), Ok(empty.clone())]));
    assert!(pieces_well_formed(&vec![Err("e".to_string()), Ok(empty)]));
    assert!(pieces_well_formed(&vec![]));
}

#[test]
fn a_stopped_reply_hands_nothing_on() {
    let out = || body_outcome("s", "u", "data: x", None, vec![Ok(chunk(vec![p("content", "a")], None))]);
    let mut stops = StopChats::new();
    match stream_step(&stops, "s", out()) {
        StreamStep::Hand { items, end } => {
            assert_eq!(texts(&items), vec![(Some("a".to_string()), None)]);
            assert!(!end);
        }
        StreamStep::Stopped => panic!("not stopped"),
    }
    set_stop_chat(&mut stops, "s".to_string(), true);
    assert!(matches!(stream_step(&stops, "s", out()), StreamStep::Stopped));
    assert!(matches!(
        stream_step(&stops, "t", BodyOutcome { items: vec![], end: true }),
        StreamStep::Hand { end: true, .. }
    ));
    set_stop_chat(&mut stops, "s".to_string(), false);
    assert!(matches!(stream_step(&stops, "s", out()), StreamStep::Hand { .. }));
}
