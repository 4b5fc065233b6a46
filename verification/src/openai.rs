//! The chat completion protocol: the messages of a request, the choice of model, and
//! the reading of the streamed reply (server-sent events).
use vstd::prelude::*;
use crate::chat::{is_stop_chat, HistoryChat, StopChats, StreamTextItem};
use crate::text::{contains_seq, starts_with, str_chars, str_contains, str_eq, range_starts_with,
    chars_to_string};

verus! {

/// A message of a chat completion request.
#[derive(Clone, Debug)]
pub struct Message {
    pub role: String,
    pub content: String,
}

/// The messages of a chat completion request.
#[derive(Clone, Debug)]
pub struct OpenAIChat {
    pub message: Vec<Message>,
}

/// A streamed piece of a chat completion.
#[derive(Clone, Debug)]
pub struct ChatCompletionChunk {
    pub id: String,
    pub object: String,
    pub created: i64,
    pub model: String,
    pub choices: Vec<ChunkChoice>,
}

/// A choice of a streamed piece; `delta` holds its (field, value) pairs.
#[derive(Clone, Debug)]
pub struct ChunkChoice {
    pub delta: Vec<(String, String)>,
    pub index: usize,
    pub finish_reason: Option<String>,
}

/// An error reply; `error` holds its (field, value) pairs.
#[derive(Clone, Debug)]
pub struct Error {
    pub error: Vec<(String, String)>,
}

/// What a message holds: (role, content).
pub open spec fn msg(role: Seq<char>, content: Seq<char>) -> (Seq<char>, Seq<char>) {
    (role, content)
}

pub open spec fn messages_view(v: Seq<Message>) -> Seq<(Seq<char>, Seq<char>)> {
    v.map_values(|m: Message| (m.role@, m.content@))
}

/// The history as alternating user and assistant messages.
pub open spec fn history_messages(h: Seq<crate::chat::HistoryChatItem>) -> Seq<(Seq<char>, Seq<char>)>
    decreases h.len(),
{
    if h.len() == 0 {
        Seq::empty()
    } else {
        history_messages(h.drop_last()) + seq![
            msg("user"@, h.last().utext@),
            msg("assistant"@, h.last().btext@),
        ]
    }
}

impl OpenAIChat {
    /// The messages of a request: the system prompt, then each question and answer of
    /// the history, then the question.
    pub fn make(system_prompt: String, question: String, chats: HistoryChat) -> (r: OpenAIChat)
        ensures
            messages_view(r.message@) == seq![msg("system"@, system_prompt@)] + history_messages(
                chats.items@,
            ) + seq![msg("user"@, question@)],
    {
        let mut items: Vec<Message> = Vec::new();
        items.push(Message { role: String::from_str("system"), content: system_prompt });
        let ghost h = chats.items@;
        assert(messages_view(items@) =~= seq![msg("system"@, system_prompt@)] + history_messages(
            h.take(0),
        ));
        for item in it: chats.items.into_iter()
            invariant
                it.seq() == h,
                messages_view(items@) == seq![msg("system"@, system_prompt@)] + history_messages(
                    h.take(it.index() as int),
                ),
        {
            let ghost i = it.index();
            let ghost before = items@;
            assert(h.take(i + 1).drop_last() == h.take(i as int));
            assert(h.take(i + 1).last() == item);
            let ghost u = item.utext@;
            let ghost b = item.btext@;
            items.push(Message { role: String::from_str("user"), content: item.utext });
            items.push(Message { role: String::from_str("assistant"), content: item.btext });
            assert(messages_view(items@) =~= messages_view(before) + seq![
                msg("user"@, u),
                msg("assistant"@, b),
            ]);
        }
        assert(h.take(h.len() as int) == h);
        let ghost before = items@;
        items.push(Message { role: String::from_str("user"), content: question });
        assert(messages_view(items@) =~= messages_view(before) + seq![msg("user"@, question@)]);
        OpenAIChat { message: items }
    }
}

/// The service a model is served by.
#[derive(Debug, PartialEq, Eq, Clone, Copy, Structural)]
pub enum Provider {
    OpenAI,
    Azure,
}

/// The service and model name of a session's model: `ChatGPT` models are served by
/// OpenAI, `Azure` ones by Azure; a model that names no known version is an error.
pub fn resolve_api_model(api_model: &str) -> (r: Result<(Provider, String), String>)
    requires
        contains_seq(api_model@, "ChatGPT"@) || contains_seq(api_model@, "Azure"@),
    ensures
        contains_seq(api_model@, "ChatGPT"@) ==> (if contains_seq(api_model@, "chat-3.5-turbo"@) {
            r matches Ok(p) && p.0 == Provider::OpenAI && p.1@ == "gpt-3.5-turbo"@
        } else {
            r matches Err(e) && e@ == "unknown api model: "@ + api_model@
        }),
        !contains_seq(api_model@, "ChatGPT"@) ==> (if contains_seq(api_model@, "chat-35-turbo"@) {
            r matches Ok(p) && p.0 == Provider::Azure && p.1@ == "gpt-35-turbo"@
        } else {
            r matches Err(e) && e@ == "unknown api model: "@ + api_model@
        }),
{
    if str_contains(api_model, "ChatGPT") {
        if str_contains(api_model, "chat-3.5-turbo") {
            Ok((Provider::OpenAI, String::from_str("gpt-3.5-turbo")))
        } else {
            let mut e = String::from_str("unknown api model: ");
            e.append(api_model);
            Err(e)
        }
    } else {
        if str_contains(api_model, "chat-35-turbo") {
            Ok((Provider::Azure, String::from_str("gpt-35-turbo")))
        } else {
            let mut e = String::from_str("unknown api model: ");
            e.append(api_model);
            Err(e)
        }
    }
}

/// The request of a question: the last item of `chats` is the question; the others
/// go along as history only when the session uses its history. Returns the messages
/// and the identifier of the question's chat item.
pub fn prepare_request(system_prompt: String, use_history: bool, chats: HistoryChat) -> (r: (OpenAIChat, String))
    requires
        chats.items@.len() > 0,
    ensures
        ({
            let h = chats.items@;
            let q = h.last();
            &&& messages_view(r.0.message@) == seq![msg("system"@, system_prompt@)]
                + (if use_history {
                history_messages(h.drop_last())
            } else {
                Seq::empty()
            }) + seq![msg("user"@, q.utext@)]
            &&& r.1@ == q.uuid@
        }),
{
    let mut chats = chats;
    let item = chats.items.pop().unwrap();
    let history = if use_history {
        chats
    } else {
        HistoryChat { items: Vec::new() }
    };
    proof {
        if !use_history {
            assert(history_messages(history.items@) =~= Seq::empty());
        }
    }
    (OpenAIChat::make(system_prompt, item.utext, history), item.uuid)
}

/// The `Authorization` value for `api_key`.
pub fn bearer(api_key: &str) -> (r: String)
    ensures
        r@ == "Bearer "@ + api_key@,
{
    let mut r = String::from_str("Bearer ");
    r.append(api_key);
    r
}

/// Index of the first blank line separator (`\n\n`) in `s` at or after `i`, or
/// `s.len()`.
pub open spec fn find_separator(s: Seq<char>, i: int) -> int
    decreases s.len() - i,
{
    if i < 0 || i + 1 >= s.len() {
        s.len() as int
    } else if s[i] == '\n' && s[i + 1] == '\n' {
        i
    } else {
        find_separator(s, i + 1)
    }
}

pub proof fn lemma_find_separator(s: Seq<char>, i: int)
    requires
        0 <= i <= s.len(),
    ensures
        i <= find_separator(s, i) <= s.len(),
        find_separator(s, i) < s.len() ==> find_separator(s, i) + 1 < s.len(),
    decreases s.len() - i,
{
    if i + 1 < s.len() && !(s[i] == '\n' && s[i + 1] == '\n') {
        lemma_find_separator(s, i + 1);
    }
}

/// The events of `s` from position `i` on: the pieces between blank line separators
/// (`str::split("\n\n")`).
pub open spec fn events_from(s: Seq<char>, i: int) -> Seq<Seq<char>>
    decreases s.len() - i,
{
    if i < 0 || i > s.len() {
        Seq::empty()
    } else {
        let k = find_separator(s, i);
        proof {
            lemma_find_separator(s, i);
        }
        if k < s.len() {
            seq![s.subrange(i, k)] + events_from(s, k + 2)
        } else {
            seq![s.subrange(i, s.len() as int)]
        }
    }
}

/// The data of the events of a streamed body: of each event that begins with
/// `data:`, what follows it.
pub open spec fn event_data(events: Seq<Seq<char>>) -> Seq<Seq<char>>
    decreases events.len(),
{
    if events.len() == 0 {
        Seq::empty()
    } else {
        let prev = event_data(events.drop_last());
        let e = events.last();
        if starts_with(e, "data:"@) {
            prev.push(e.skip(5))
        } else {
            prev
        }
    }
}

/// The data of the events of a streamed body.
pub fn event_payloads(body: &str) -> (res: Vec<String>)
    ensures
        res@.map_values(|x: String| x@) == event_data(events_from(body@, 0)),
{
    proof {
        reveal_strlit("data:");
    }
    let v = str_chars(body);
    let pat = vec!['d', 'a', 't', 'a', ':'];
    assert(pat@ == "data:"@);
    let n = v.len();
    let mut res: Vec<String> = Vec::new();
    let mut i: usize = 0;
    let ghost done: Seq<Seq<char>> = Seq::empty();
    loop
        invariant
            i <= n == v.len(),
            v@ == body@,
            pat@ == "data:"@,
            pat@.len() == 5,
            done + events_from(v@, i as int) == events_from(v@, 0),
            res@.map_values(|x: String| x@) == event_data(done),
        decreases n - i,
    {
        let mut k = i;
        while n - k >= 2 && !(v[k] == '\n' && v[k + 1] == '\n')
            invariant
                i <= k <= n == v.len(),
                find_separator(v@, k as int) == find_separator(v@, i as int),
            decreases n - k,
        {
            k = k + 1;
        }
        proof {
            lemma_find_separator(v@, i as int);
        }
        let k = if n - k >= 2 {
            k
        } else {
            n
        };
        let ghost e = v@.subrange(i as int, k as int);
        let ghost before = res@;
        if range_starts_with(&v, i, k, &pat) {
            assert(pat@.len() == 5);
            assert(k - i >= 5);
            let piece = chars_to_string(&v, i + 5, k);
            assert(piece@ == e.skip(5));
            res.push(piece);
            assert(res@.map_values(|x: String| x@) =~= before.map_values(|x: String| x@).push(e.skip(5)));
        }
        proof {
            assert(done.push(e).drop_last() == done);
            assert(done.push(e).last() == e);
            done = done.push(e);
        }
        if k < n {
            assert(events_from(v@, i as int) == seq![e] + events_from(v@, k + 2));
            assert(done + events_from(v@, k + 2) == done.drop_last() + events_from(v@, i as int));
            i = k + 2;
        } else {
            assert(events_from(v@, i as int) == seq![e]);
            assert(done == done.drop_last() + events_from(v@, i as int));
            return res;
        }
    }
}

/// Whether a streamed body announces the end of the reply.
pub fn is_done(body: &str) -> (r: bool)
    ensures
        r == starts_with(body@, "data: [DONE]"@),
{
    crate::text::str_starts_with(body, "data: [DONE]")
}

/// The value of field `key` in the pairs `m`: the first pair with that field.
pub open spec fn lookup(m: Seq<(String, String)>, key: Seq<char>) -> Option<Seq<char>>
    decreases m.len(),
{
    if m.len() == 0 {
        None
    } else if m[0].0@ == key {
        Some(m[0].1@)
    } else {
        lookup(m.drop_first(), key)
    }
}

/// The value of field `key` in the pairs `m`.
pub fn lookup_exec(m: &Vec<(String, String)>, key: &str) -> (r: Option<String>)
    ensures
        r is Some <==> lookup(m@, key@) is Some,
        r matches Some(v) ==> lookup(m@, key@) == Some(v@),
{
    let mut i: usize = 0;
    assert(m@.skip(0) == m@);
    while i < m.len()
        invariant
            i <= m.len(),
            lookup(m@.skip(i as int), key@) == lookup(m@, key@),
        decreases m.len() - i,
    {
        assert(m@.skip(i as int)[0] == m@[i as int]);
        if str_eq(m[i].0.as_str(), key) {
            return Some(m[i].1.clone());
        }
        assert(m@.skip(i as int).drop_first() == m@.skip(i + 1));
        i = i + 1;
    }
    None
}

/// The message of an error reply.
pub fn error_message(err: &Error) -> (r: Option<String>)
    ensures
        r is Some <==> lookup(err.error@, "message"@) is Some,
        r matches Some(v) ==> lookup(err.error@, "message"@) == Some(v@),
{
    lookup_exec(&err.error, "message")
}

/// What a streamed piece asks for.
#[derive(Debug)]
pub enum ChunkAction {
    /// The reply is finished.
    Finish,
    /// More text of the answer.
    Text(String),
    /// Nothing to show.
    Skip,
}

/// What a streamed piece asks for: its first choice finishes the reply when it gives
/// a reason to finish, else it brings the `content` of its delta, if any.
pub fn chunk_action(chunk: &ChatCompletionChunk) -> (r: ChunkAction)
    requires
        chunk.choices@.len() > 0,
    ensures
        ({
            let c = chunk.choices@[0];
            if c.finish_reason is Some {
                r is Finish
            } else {
                match lookup(c.delta@, "content"@) {
                    Some(t) => r matches ChunkAction::Text(x) && x@ == t,
                    None => r is Skip,
                }
            }
        }),
{
    let choice = &chunk.choices[0];
    if choice.finish_reason.is_some() {
        return ChunkAction::Finish;
    }
    match lookup_exec(&choice.delta, "content") {
        Some(t) => ChunkAction::Text(t),
        None => ChunkAction::Skip,
    }
}

/// What a streamed piece yields to the reader: `(true, text)` for text of the answer,
/// `(false, message)` for an error.
pub open spec fn piece_events(pieces: Seq<Result<ChatCompletionChunk, String>>) -> Seq<(bool, Seq<char>)>
    decreases pieces.len(),
{
    if pieces.len() == 0 {
        Seq::empty()
    } else {
        match pieces[0] {
            Ok(c) => {
                if c.choices@.len() == 0 || c.choices@[0].finish_reason is Some {
                    Seq::empty()
                } else {
                    match lookup(c.choices@[0].delta@, "content"@) {
                        Some(t) => seq![(true, t)] + piece_events(pieces.drop_first()),
                        None => piece_events(pieces.drop_first()),
                    }
                }
            },
            Err(e) => seq![(false, e@)],
        }
    }
}

/// Whether the pairs `m` hold the field `key`, every pair of that field with the value
/// `v`.
pub open spec fn holds_field(m: Seq<(String, String)>, key: Seq<char>, v: Seq<char>) -> bool {
    &&& exists|k: int| 0 <= k < m.len() && (#[trigger] m[k]).0@ == key
    &&& forall|k: int| 0 <= k < m.len() && (#[trigger] m[k]).0@ == key ==> m[k].1@ == v
}

proof fn lemma_lookup_field(m: Seq<(String, String)>, key: Seq<char>, v: Seq<char>)
    requires
        holds_field(m, key, v),
    ensures
        lookup(m, key) == Some(v),
    decreases m.len(),
{
    if m[0].0@ != key {
        let k = choose|k: int| 0 <= k < m.len() && (#[trigger] m[k]).0@ == key;
        assert(m.drop_first()[k - 1] == m[k]);
        assert forall|j: int| 0 <= j < m.drop_first().len() && (#[trigger] m.drop_first()[j]).0@
            == key implies m.drop_first()[j].1@ == v by {
            assert(m.drop_first()[j] == m[j + 1]);
        }
        lemma_lookup_field(m.drop_first(), key, v);
    }
}

/// Reading a streamed reply hands on each piece's content unchanged: when every piece
/// parses, has a choice that does not finish the reply, and has a `content` field,
/// the pieces handed on are exactly those contents, one text per piece, in order,
/// character for character.
pub proof fn law_pieces_hand_on_contents(
    pieces: Seq<Result<ChatCompletionChunk, String>>,
    contents: Seq<Seq<char>>,
)
    requires
        pieces.len() == contents.len(),
        forall|i: int|
            0 <= i < pieces.len() ==> (#[trigger] pieces[i] matches Ok(c) && c.choices@.len() > 0
                && c.choices@[0].finish_reason is None && holds_field(
                c.choices@[0].delta@,
                "content"@,
                contents[i],
            )),
    ensures
        piece_events(pieces).len() == contents.len(),
        forall|i: int|
            0 <= i < contents.len() ==> #[trigger] piece_events(pieces)[i] == (true, contents[i]),
    decreases pieces.len(),
{
    if pieces.len() > 0 {
        assert forall|i: int| 0 <= i < pieces.drop_first().len() implies (
        #[trigger] pieces.drop_first()[i] matches Ok(c) && c.choices@.len() > 0
            && c.choices@[0].finish_reason is None && holds_field(
            c.choices@[0].delta@,
            "content"@,
            contents.drop_first()[i],
        )) by {
            assert(pieces.drop_first()[i] == pieces[i + 1]);
            assert(contents.drop_first()[i] == contents[i + 1]);
        }
        law_pieces_hand_on_contents(pieces.drop_first(), contents.drop_first());
        assert(pieces[0] matches Ok(c) && c.choices@.len() > 0);
        match pieces[0] {
            Ok(c) => lemma_lookup_field(c.choices@[0].delta@, "content"@, contents[0]),
            Err(_) => {},
        }
        let rest = piece_events(pieces.drop_first());
        assert(piece_events(pieces) == seq![(true, contents[0])] + rest);
        assert forall|i: int| 0 <= i < contents.len() implies #[trigger] piece_events(pieces)[i] == (
        true,
        contents[i],
        ) by {
            if i > 0 {
                assert(piece_events(pieces)[i] == rest[i - 1]);
                assert(contents.drop_first()[i - 1] == contents[i]);
            }
        }
    }
}

/// What `body_outcome` hands on for such pieces: one text item per piece, carrying
/// exactly that piece's content and no error.
pub proof fn law_outcome_texts_are_contents(
    items: Seq<StreamTextItem>,
    suuid: Seq<char>,
    uuid: Seq<char>,
    pieces: Seq<Result<ChatCompletionChunk, String>>,
    contents: Seq<Seq<char>>,
)
    requires
        carries_all(items, suuid, uuid, piece_events(pieces)),
        pieces.len() == contents.len(),
        forall|i: int|
            0 <= i < pieces.len() ==> (#[trigger] pieces[i] matches Ok(c) && c.choices@.len() > 0
                && c.choices@[0].finish_reason is None && holds_field(
                c.choices@[0].delta@,
                "content"@,
                contents[i],
            )),
    ensures
        items.len() == contents.len(),
        forall|i: int|
            0 <= i < items.len() ==> ((#[trigger] items[i]).text matches Some(t) && t@ == contents[i])
                && items[i].etext is None,
{
    law_pieces_hand_on_contents(pieces, contents);
    assert forall|i: int| 0 <= i < items.len() implies ((#[trigger] items[i]).text matches Some(t)
        && t@ == contents[i]) && items[i].etext is None by {
        assert(carries(items[i], suuid, uuid, piece_events(pieces)[i]));
        assert(piece_events(pieces)[i] == (true, contents[i]));
    }
}

/// Whether each piece that is read has a choice: the pieces are read in turn until
/// one fails to parse or finishes the reply.
pub open spec fn pieces_readable(pieces: Seq<Result<ChatCompletionChunk, String>>) -> bool
    decreases pieces.len(),
{
    if pieces.len() == 0 {
        true
    } else {
        match pieces[0] {
            Ok(c) => c.choices@.len() > 0 && (c.choices@[0].finish_reason is Some
                || pieces_readable(pieces.drop_first())),
            Err(_) => true,
        }
    }
}

/// Whether each piece that is read has a choice.
pub fn pieces_well_formed(pieces: &Vec<Result<ChatCompletionChunk, String>>) -> (r: bool)
    ensures
        r == pieces_readable(pieces@),
{
    let mut i: usize = 0;
    assert(pieces@.skip(0) == pieces@);
    while i < pieces.len()
        invariant
            i <= pieces.len(),
            pieces_readable(pieces@.skip(i as int)) == pieces_readable(pieces@),
        decreases pieces.len() - i,
    {
        assert(pieces@.skip(i as int)[0] == pieces@[i as int]);
        assert(pieces@.skip(i as int).drop_first() == pieces@.skip(i + 1));
        match &pieces[i] {
            Ok(c) => {
                if c.choices.len() == 0 {
                    return false;
                }
                if c.choices[0].finish_reason.is_some() {
                    return true;
                }
            },
            Err(_) => {
                return true;
            },
        }
        i = i + 1;
    }
    true
}

/// The piece `x` of the reply to chat item `uuid` of session `suuid` carries the
/// event `ev`.
pub open spec fn carries(x: StreamTextItem, suuid: Seq<char>, uuid: Seq<char>, ev: (bool, Seq<char>)) -> bool {
    &&& x.suuid@ == suuid
    &&& x.uuid@ == uuid
    &&& !x.finished
    &&& if ev.0 {
        x.text matches Some(t) && t@ == ev.1 && x.etext is None
    } else {
        x.etext matches Some(e) && e@ == ev.1 && x.text is None
    }
}

pub open spec fn carries_all(
    items: Seq<StreamTextItem>,
    suuid: Seq<char>,
    uuid: Seq<char>,
    evs: Seq<(bool, Seq<char>)>,
) -> bool {
    &&& items.len() == evs.len()
    &&& forall|i: int| 0 <= i < items.len() ==> carries(#[trigger] items[i], suuid, uuid, evs[i])
}

/// What a received body of the reply stream yields: the pieces to hand on, in order,
/// and whether the reply ends with it.
#[derive(Debug)]
pub struct BodyOutcome {
    pub items: Vec<StreamTextItem>,
    pub end: bool,
}

fn event_item(suuid: &str, uuid: &str, is_text: bool, s: String) -> (x: StreamTextItem)
    ensures
        carries(x, suuid@, uuid@, (is_text, s@)),
{
    if is_text {
        StreamTextItem {
            text: Some(s),
            etext: None,
            suuid: String::from_str(suuid),
            uuid: String::from_str(uuid),
            finished: false,
        }
    } else {
        StreamTextItem {
            text: None,
            etext: Some(s),
            suuid: String::from_str(suuid),
            uuid: String::from_str(uuid),
            finished: false,
        }
    }
}

/// Reads a body received for chat item `uuid` of session `suuid`. `err` is the body
/// read as an error reply, if it is one; `pieces` are its event data read as streamed
/// pieces, or the reason each could not be. An error reply ends the reply, handing on
/// its message if it has one; so does the end mark. Otherwise the pieces are read in
/// turn: each hands on its text, until one finishes the reply or fails to parse, whose
/// reason is handed on.
pub fn body_outcome(
    suuid: &str,
    uuid: &str,
    body: &str,
    err: Option<Error>,
    pieces: Vec<Result<ChatCompletionChunk, String>>,
) -> (r: BodyOutcome)
    requires
        err is None && !starts_with(body@, "data: [DONE]"@) ==> pieces_readable(pieces@),
    ensures
        err matches Some(e) ==> r.end && carries_all(
            r.items@,
            suuid@,
            uuid@,
            match lookup(e.error@, "message"@) {
                Some(m) => seq![(false, m)],
                None => Seq::empty(),
            },
        ),
        err is None && starts_with(body@, "data: [DONE]"@) ==> r.end && r.items@.len() == 0,
        err is None && !starts_with(body@, "data: [DONE]"@) ==> !r.end && carries_all(
            r.items@,
            suuid@,
            uuid@,
            piece_events(pieces@),
        ),
{
    let mut items: Vec<StreamTextItem> = Vec::new();
    match err {
        Some(e) => {
            match error_message(&e) {
                Some(m) => {
                    items.push(event_item(suuid, uuid, false, m));
                    assert(items@ == seq![items@[0]]);
                },
                None => {},
            }
            return BodyOutcome { items, end: true };
        },
        None => {},
    }
    if is_done(body) {
        return BodyOutcome { items, end: true };
    }
    let ghost all = pieces@;
    let mut i: usize = 0;
    assert(all.skip(0) == all);
    while i < pieces.len()
        invariant_except_break
            pieces_readable(all.skip(i as int)),
            piece_events(all) == piece_events(all).take(items@.len() as int) + piece_events(
                all.skip(i as int),
            ),
        invariant
            i <= pieces.len(),
            pieces@ == all,
            carries_all(items@, suuid@, uuid@, piece_events(all).take(items@.len() as int)),
        ensures
            piece_events(all).take(items@.len() as int) == piece_events(all),
        decreases pieces.len() - i,
    {
        let ghost rest = all.skip(i as int);
        let ghost before = items@;
        assert(rest[0] == all[i as int]);
        assert(rest.drop_first() == all.skip(i + 1));
        match &pieces[i] {
            Ok(c) => {
                match chunk_action(c) {
                    ChunkAction::Finish => {
                        assert(piece_events(rest) == Seq::<(bool, Seq<char>)>::empty());
                        assert(piece_events(all) == piece_events(all).take(items@.len() as int));
                        break;
                    },
                    ChunkAction::Text(t) => {
                        items.push(event_item(suuid, uuid, true, t));
                        proof {
                            let pe = piece_events(all);
                            let n = before.len() as int;
                            assert(piece_events(rest) == seq![(true, t@)] + piece_events(all.skip(i + 1)));
                            assert(pe[n] == (true, t@));
                            assert(pe.take(n + 1) == pe.take(n).push(pe[n]));
                            assert(pe == pe.take(n + 1) + piece_events(all.skip(i + 1)));
                            assert forall|k: int| 0 <= k < items@.len() implies carries(
                                #[trigger] items@[k],
                                suuid@,
                                uuid@,
                                pe.take(n + 1)[k],
                            ) by {
                                if k < n {
                                    assert(items@[k] == before[k]);
                                }
                            }
                        }
                    },
                    ChunkAction::Skip => {
                        assert(piece_events(rest) == piece_events(all.skip(i + 1)));
                    },
                }
            },
            Err(e) => {
                items.push(event_item(suuid, uuid, false, e.clone()));
                proof {
                    let pe = piece_events(all);
                    let n = before.len() as int;
                    assert(piece_events(rest) == seq![(false, e@)]);
                    assert(pe[n] == (false, e@));
                    assert(pe.take(n + 1) == pe.take(n).push(pe[n]));
                    assert(pe == pe.take(n + 1));
                    assert(pe.take(items@.len() as int) == pe);
                    assert forall|k: int| 0 <= k < items@.len() implies carries(
                        #[trigger] items@[k],
                        suuid@,
                        uuid@,
                        pe.take(n + 1)[k],
                    ) by {
                        if k < n {
                            assert(items@[k] == before[k]);
                        }
                    }
                }
                break;
            },
        }
        i = i + 1;
        proof {
            if i == pieces.len() {
                assert(all.skip(i as int) == Seq::<Result<ChatCompletionChunk, String>>::empty());
                assert(piece_events(all) == piece_events(all).take(items@.len() as int));
            }
        }
    }
    BodyOutcome { items, end: false }
}

/// What the reader of a reply stream does with a received body.
#[derive(Debug)]
pub enum StreamStep {
    /// The session's reply has been stopped: nothing more is handed on, and the reply
    /// ends without its closing piece.
    Stopped,
    /// Hand on these pieces in order, then end the reply when `end` is set.
    Hand { items: Vec<StreamTextItem>, end: bool },
}

/// The step of the reply of session `suuid` for a received body that reads as
/// `outcome`: once the session's reply is marked stopped in `stops`, nothing of the
/// body is handed on; otherwise the body's pieces are handed on.
pub fn stream_step(stops: &StopChats, suuid: &str, outcome: BodyOutcome) -> (r: StreamStep)
    ensures
        r is Stopped <==> stops@.contains(suuid@),
        !stops@.contains(suuid@) ==> (r matches StreamStep::Hand { items, end } && items
            == outcome.items && end == outcome.end),
{
    if is_stop_chat(stops, suuid) {
        StreamStep::Stopped
    } else {
        StreamStep::Hand { items: outcome.items, end: outcome.end }
    }
}

/// A chat completion request.
#[derive(Clone, Debug)]
pub struct ChatCompletion<F> {
    pub messages: Vec<Message>,
    pub model: String,
    pub max_tokens: i32,
    pub temperature: F,
    pub frequency_penalty: F,
    pub presence_penalty: F,
    pub stream: bool,
}

/// The streamed request of `chat` to model `api_model`, with the limits and sampling
/// parameters of the settings `config`.
pub fn completion_request<F: Copy>(chat: OpenAIChat, api_model: String, config: &crate::config::OpenAi<F>) -> (r: ChatCompletion<F>)
    ensures
        r.messages == chat.message,
        r.model == api_model,
        r.max_tokens == config.chat.max_tokens,
        r.temperature == config.chat.temperature,
        r.frequency_penalty == config.chat.frequency_penalty,
        r.presence_penalty == config.chat.presence_penalty,
        r.stream,
{
    ChatCompletion {
        messages: chat.message,
        model: api_model,
        max_tokens: config.chat.max_tokens,
        temperature: config.chat.temperature,
        frequency_penalty: config.chat.frequency_penalty,
        presence_penalty: config.chat.presence_penalty,
        stream: true,
    }
}

/// A request holds the system prompt, two messages for each question and answer of
/// the history, and the question: each question of the history is a user message,
/// followed by its answer as an assistant message.
pub proof fn law_request_shape(h: Seq<crate::chat::HistoryChatItem>)
    ensures
        history_messages(h).len() == 2 * h.len(),
        forall|i: int|
            #![trigger h[i]]
            0 <= i < h.len() ==> history_messages(h)[2 * i] == msg("user"@, h[i].utext@)
                && history_messages(h)[2 * i + 1] == msg("assistant"@, h[i].btext@),
    decreases h.len(),
{
    if h.len() > 0 {
        law_request_shape(h.drop_last());
        let p = history_messages(h.drop_last());
        let r = history_messages(h);
        let last = seq![msg("user"@, h.last().utext@), msg("assistant"@, h.last().btext@)];
        assert(r == p + last);
        assert forall|i: int| #![trigger h[i]] 0 <= i < h.len() implies r[2 * i] == msg(
            "user"@,
            h[i].utext@,
        ) && r[2 * i + 1] == msg("assistant"@, h[i].btext@) by {
            if i < h.len() - 1 {
                assert(h.drop_last()[i] == h[i]);
                assert(r[2 * i] == p[2 * i]);
                assert(r[2 * i + 1] == p[2 * i + 1]);
            } else {
                assert(r[2 * i] == last[0]);
                assert(r[2 * i + 1] == last[1]);
            }
        }
    }
}

} // verus!
