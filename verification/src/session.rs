//! Chat sessions: what is saved of them, how they are restored and ordered, and what
//! the session actions do to the list of sessions.
use vstd::prelude::*;
use vstd::multiset::Multiset;
use crate::chat::{
    append_answer, cache_after_update, copy_chat_items, get_cache, item_views, law_cache_gathers_text,
    new_uuid, is_uuid_text, streamed_btext, ChatCache, ChatItem, ChatItemView,
};
use crate::render::{blocks, parse_chat_text, parse_spec, CodeTextItem};
use crate::text::{
    contains_seq, starts_with, str_contains, str_has_char, str_starts_with, trim_start,
    trimmed_start, chars_lt, chars_vec_lt, lemma_chars_lt_asym, lemma_chars_lt_weak, lowercase, str_chars,
    str_eq, to_lowercase,
};

verus! {

/// The session that always exists and cannot be deleted.
pub const DEFAULT_SESSION_UUID: &'static str = "default-session-uuid";

pub open spec fn default_uuid() -> Seq<char> {
    "default-session-uuid"@
}

/// A chat session: its settings and its chat.
#[derive(Clone, Debug)]
pub struct ChatSession {
    pub uuid: String,
    pub name: String,
    pub system_prompt: String,
    pub api_model: String,
    pub shortcut_instruction: String,
    pub use_history: bool,
    pub is_mark: bool,
    pub icon_index: i32,
    pub chat_items: Vec<ChatItem>,
}

/// The settings of a session, as they are saved.
#[derive(Clone, Debug)]
pub struct SessionConfig {
    pub name: String,
    pub system_prompt: String,
    pub api_model: String,
    pub shortcut_instruction: String,
    pub use_history: bool,
    pub is_mark: bool,
    pub icon_index: i32,
}

/// A chat item, as it is saved.
#[derive(Clone, Debug)]
pub struct SessionChat {
    pub uuid: String,
    pub utext: String,
    pub btext: String,
    pub timestamp: String,
    pub is_mark: bool,
}

/// The chat of a session, as it is saved.
#[derive(Clone, Debug)]
pub struct SessionChats {
    pub chats: Vec<SessionChat>,
}

/// A shortcut instruction offered while the question is typed.
#[derive(Clone, Debug)]
pub struct InstTipItem {
    pub inst: String,
    pub session_name: String,
    pub session_icon_index: i32,
}

/// An archived chat of a session.
#[derive(Clone, Debug)]
pub struct ArchiveChatItem {
    pub name: String,
    pub uuid: String,
}

impl SessionConfig {
    /// The settings of session `cs`.
    pub fn from(cs: &ChatSession) -> (r: SessionConfig)
        ensures
            r.name == cs.name,
            r.system_prompt == cs.system_prompt,
            r.api_model == cs.api_model,
            r.shortcut_instruction == cs.shortcut_instruction,
            r.use_history == cs.use_history,
            r.is_mark == cs.is_mark,
            r.icon_index == cs.icon_index,
    {
        SessionConfig {
            name: cs.name.clone(),
            system_prompt: cs.system_prompt.clone(),
            api_model: cs.api_model.clone(),
            shortcut_instruction: cs.shortcut_instruction.clone(),
            use_history: cs.use_history,
            is_mark: cs.is_mark,
            icon_index: cs.icon_index,
        }
    }
}

pub open spec fn saved_chat(x: ChatItem) -> SessionChat {
    SessionChat {
        uuid: x.uuid,
        utext: x.utext,
        btext: x.btext,
        timestamp: x.timestamp,
        is_mark: x.is_mark,
    }
}

impl SessionChats {
    /// What is saved of the chat items `items`.
    pub fn from(items: &Vec<ChatItem>) -> (r: SessionChats)
        ensures
            r.chats@ == items@.map_values(|x: ChatItem| saved_chat(x)),
    {
        let mut out: Vec<SessionChat> = Vec::new();
        let mut i: usize = 0;
        while i < items.len()
            invariant
                i <= items.len(),
                out@ == items@.take(i as int).map_values(|x: ChatItem| saved_chat(x)),
            decreases items.len() - i,
        {
            let x = &items[i];
            out.push(
                SessionChat {
                    uuid: x.uuid.clone(),
                    utext: x.utext.clone(),
                    btext: x.btext.clone(),
                    timestamp: x.timestamp.clone(),
                    is_mark: x.is_mark,
                },
            );
            assert(items@.take(i + 1) == items@.take(i as int).push(items@[i as int]));
            assert(out@ =~= items@.take(i + 1).map_values(|x: ChatItem| saved_chat(x)));
            i = i + 1;
        }
        assert(items@.take(items.len() as int) == items@);
        SessionChats { chats: out }
    }
}

/// A chat item restored from what was saved of it: no error text, and the question
/// and answer rendered into blocks.
pub open spec fn restored_item(c: SessionChat, x: ChatItem) -> bool {
    &&& x.uuid == c.uuid
    &&& x.utext == c.utext
    &&& x.btext == c.btext
    &&& x.timestamp == c.timestamp
    &&& x.is_mark == c.is_mark
    &&& x.etext@.len() == 0
    &&& blocks(x.utext_items@) == parse_spec(c.utext@)
    &&& blocks(x.btext_items@) == parse_spec(c.btext@)
}

/// The chat items restored from the saved chat `sc`.
pub fn restore_chat_items(sc: &SessionChats) -> (res: Vec<ChatItem>)
    ensures
        res@.len() == sc.chats@.len(),
        forall|i: int| 0 <= i < res@.len() ==> restored_item(sc.chats@[i], #[trigger] res@[i]),
{
    let mut res: Vec<ChatItem> = Vec::new();
    let mut i: usize = 0;
    while i < sc.chats.len()
        invariant
            i <= sc.chats.len(),
            res@.len() == i,
            forall|k: int| 0 <= k < i ==> restored_item(sc.chats@[k], #[trigger] res@[k]),
        decreases sc.chats.len() - i,
    {
        let c = &sc.chats[i];
        res.push(
            ChatItem {
                uuid: c.uuid.clone(),
                utext: c.utext.clone(),
                btext: c.btext.clone(),
                timestamp: c.timestamp.clone(),
                etext: String::new(),
                is_mark: c.is_mark,
                utext_items: parse_chat_text(c.utext.as_str()),
                btext_items: parse_chat_text(c.btext.as_str()),
            },
        );
        i = i + 1;
    }
    res
}

/// Session `uuid` restored from its saved settings and chat.
pub fn restore_session(uuid: String, config: &SessionConfig, chats: &SessionChats) -> (res: ChatSession)
    ensures
        res.uuid == uuid,
        res.name == config.name,
        res.system_prompt == config.system_prompt,
        res.api_model == config.api_model,
        res.shortcut_instruction == config.shortcut_instruction,
        res.use_history == config.use_history,
        res.is_mark == config.is_mark,
        res.icon_index == config.icon_index,
        res.chat_items@.len() == chats.chats@.len(),
        forall|i: int|
            0 <= i < res.chat_items@.len() ==> restored_item(
                chats.chats@[i],
                #[trigger] res.chat_items@[i],
            ),
{
    ChatSession {
        uuid,
        name: config.name.clone(),
        system_prompt: config.system_prompt.clone(),
        api_model: config.api_model.clone(),
        shortcut_instruction: config.shortcut_instruction.clone(),
        use_history: config.use_history,
        is_mark: config.is_mark,
        icon_index: config.icon_index,
        chat_items: restore_chat_items(chats),
    }
}

/// A new session with the settings `config`, a new identifier, no mark and no chat.
pub fn new_session(config: &SessionConfig) -> (res: ChatSession)
    ensures
        is_uuid_text(res.uuid@),
        res.name == config.name,
        res.system_prompt == config.system_prompt,
        res.api_model == config.api_model,
        res.shortcut_instruction == config.shortcut_instruction,
        res.use_history == config.use_history,
        res.icon_index == config.icon_index,
        !res.is_mark,
        res.chat_items@.len() == 0,
{
    ChatSession {
        uuid: new_uuid(),
        name: config.name.clone(),
        system_prompt: config.system_prompt.clone(),
        api_model: config.api_model.clone(),
        shortcut_instruction: config.shortcut_instruction.clone(),
        use_history: config.use_history,
        is_mark: false,
        icon_index: config.icon_index,
        chat_items: Vec::new(),
    }
}

/// The index of the first session whose identifier is `uuid`.
pub open spec fn first_session(s: Seq<ChatSession>, uuid: Seq<char>) -> int
    decreases s.len(),
{
    if s.len() == 0 {
        -1
    } else if s[0].uuid@ == uuid {
        0
    } else {
        let k = first_session(s.drop_first(), uuid);
        if k < 0 {
            -1
        } else {
            k + 1
        }
    }
}

pub proof fn lemma_first_session(s: Seq<ChatSession>, uuid: Seq<char>)
    ensures
        -1 <= first_session(s, uuid) < s.len(),
        first_session(s, uuid) >= 0 ==> s[first_session(s, uuid)].uuid@ == uuid,
        forall|i: int|
            0 <= i < s.len() && (first_session(s, uuid) < 0 || i < first_session(s, uuid))
                ==> s[i].uuid@ != uuid,
    decreases s.len(),
{
    if s.len() > 0 && s[0].uuid@ != uuid {
        lemma_first_session(s.drop_first(), uuid);
        assert forall|i: int|
            0 <= i < s.len() && (first_session(s, uuid) < 0 || i < first_session(s, uuid))
                implies s[i].uuid@ != uuid by {
            if i > 0 {
                assert(s[i] == s.drop_first()[i - 1]);
            }
        }
    }
}

/// The index of the first session whose identifier is `uuid`, if any.
pub fn session_index(sessions: &Vec<ChatSession>, uuid: &str) -> (r: Option<usize>)
    ensures
        r is None <==> first_session(sessions@, uuid@) < 0,
        r matches Some(i) ==> i as int == first_session(sessions@, uuid@),
{
    proof {
        lemma_first_session(sessions@, uuid@);
    }
    let mut i: usize = 0;
    while i < sessions.len()
        invariant
            i <= sessions.len(),
            forall|k: int| 0 <= k < i ==> sessions@[k].uuid@ != uuid@,
        decreases sessions.len() - i,
    {
        if str_eq(sessions[i].uuid.as_str(), uuid) {
            proof {
                lemma_first_session(sessions@, uuid@);
                let f = first_session(sessions@, uuid@);
                assert(f == i) by {
                    if f < 0 || i < f {
                        assert(sessions@[i as int].uuid@ != uuid@);
                    }
                }
            }
            return Some(i);
        }
        i = i + 1;
    }
    proof {
        lemma_first_session(sessions@, uuid@);
        let f = first_session(sessions@, uuid@);
        if f >= 0 {
            assert(sessions@[f].uuid@ != uuid@);
        }
    }
    None
}

/// The settings that a question of the current session `uuid` is sent with: its
/// system prompt, model, shortcut instruction and whether the history goes along.
pub fn current_session_config(sessions: &Vec<ChatSession>, uuid: &str) -> (r: (String, String, String, bool))
    requires
        exists|i: int| 0 <= i < sessions@.len() && sessions@[i].uuid@ == uuid@,
    ensures
        ({
            let s = sessions@[first_session(sessions@, uuid@)];
            &&& r.0 == s.system_prompt
            &&& r.1 == s.api_model
            &&& r.2 == s.shortcut_instruction
            &&& r.3 == s.use_history
        }),
{
    proof {
        lemma_first_session(sessions@, uuid@);
    }
    match session_index(sessions, uuid) {
        Some(i) => {
            let s = &sessions[i];
            (s.system_prompt.clone(), s.api_model.clone(), s.shortcut_instruction.clone(), s.use_history)
        },
        None => {
            proof {
                let k = choose|k: int| 0 <= k < sessions@.len() && sessions@[k].uuid@ == uuid@;
                assert(sessions@[k].uuid@ != uuid@);
            }
            (String::new(), String::new(), String::new(), false)
        },
    }
}

/// The sessions of `s` but those whose identifier is `uuid`.
pub open spec fn without_session_uuid(s: Seq<ChatSession>, uuid: Seq<char>) -> Seq<ChatSession>
    decreases s.len(),
{
    if s.len() == 0 {
        s
    } else if s.last().uuid@ == uuid {
        without_session_uuid(s.drop_last(), uuid)
    } else {
        without_session_uuid(s.drop_last(), uuid).push(s.last())
    }
}

/// Deletes the sessions whose identifier is `uuid`; the default session is never
/// deleted (`None`).
pub fn delete_session(sessions: Vec<ChatSession>, uuid: &str) -> (res: Option<Vec<ChatSession>>)
    ensures
        res is None <==> uuid@ == default_uuid(),
        res matches Some(v) ==> v@ == without_session_uuid(sessions@, uuid@),
{
    if str_eq(uuid, DEFAULT_SESSION_UUID) {
        return None;
    }
    let ghost s = sessions@;
    let mut res: Vec<ChatSession> = Vec::new();
    for x in it: sessions.into_iter()
        invariant
            it.seq() == s,
            res@ == without_session_uuid(s.take(it.index() as int), uuid@),
    {
        let ghost i = it.index();
        assert(s.take(i + 1).drop_last() == s.take(i as int));
        assert(s.take(i + 1).last() == x);
        if !str_eq(x.uuid.as_str(), uuid) {
            res.push(x);
        }
    }
    assert(s.take(s.len() as int) == s);
    Some(res)
}

/// The sessions of `s`, with the mark of those whose identifier is `uuid` flipped.
pub open spec fn toggled_sessions(s: Seq<ChatSession>, uuid: Seq<char>) -> Seq<ChatSession>
    decreases s.len(),
{
    if s.len() == 0 {
        s
    } else {
        let x = s.last();
        toggled_sessions(s.drop_last(), uuid).push(
            if x.uuid@ == uuid {
                ChatSession { is_mark: !x.is_mark, ..x }
            } else {
                x
            },
        )
    }
}

/// Flips the mark of the sessions whose identifier is `uuid`.
pub fn toggle_mark_session(sessions: Vec<ChatSession>, uuid: &str) -> (res: Vec<ChatSession>)
    ensures
        res@ == toggled_sessions(sessions@, uuid@),
{
    let ghost s = sessions@;
    let mut res: Vec<ChatSession> = Vec::new();
    for x in it: sessions.into_iter()
        invariant
            it.seq() == s,
            res@ == toggled_sessions(s.take(it.index() as int), uuid@),
    {
        let ghost i = it.index();
        assert(s.take(i + 1).drop_last() == s.take(i as int));
        assert(s.take(i + 1).last() == x);
        let mut y = x;
        if str_eq(y.uuid.as_str(), uuid) {
            y.is_mark = !y.is_mark;
        }
        res.push(y);
    }
    assert(s.take(s.len() as int) == s);
    res
}

/// Session `x` with the settings `c` (its identifier, mark and chat stay).
pub open spec fn edited(x: ChatSession, c: SessionConfig) -> ChatSession {
    ChatSession {
        name: c.name,
        system_prompt: c.system_prompt,
        api_model: c.api_model,
        shortcut_instruction: c.shortcut_instruction,
        icon_index: c.icon_index,
        use_history: c.use_history,
        ..x
    }
}

/// The sessions of `s`, with the settings of those whose identifier is `uuid` replaced.
pub open spec fn edited_sessions(s: Seq<ChatSession>, uuid: Seq<char>, c: SessionConfig) -> Seq<
    ChatSession,
>
    decreases s.len(),
{
    if s.len() == 0 {
        s
    } else {
        let x = s.last();
        edited_sessions(s.drop_last(), uuid, c).push(
            if x.uuid@ == uuid {
                edited(x, c)
            } else {
                x
            },
        )
    }
}

/// Gives the sessions whose identifier is `uuid` the settings `config`.
pub fn save_edit_session(sessions: Vec<ChatSession>, uuid: &str, config: &SessionConfig) -> (res: Vec<
    ChatSession,
>)
    ensures
        res@ == edited_sessions(sessions@, uuid@, *config),
{
    let ghost s = sessions@;
    let mut res: Vec<ChatSession> = Vec::new();
    for x in it: sessions.into_iter()
        invariant
            it.seq() == s,
            res@ == edited_sessions(s.take(it.index() as int), uuid@, *config),
    {
        let ghost i = it.index();
        assert(s.take(i + 1).drop_last() == s.take(i as int));
        assert(s.take(i + 1).last() == x);
        let mut y = x;
        if str_eq(y.uuid.as_str(), uuid) {
            y.name = config.name.clone();
            y.system_prompt = config.system_prompt.clone();
            y.api_model = config.api_model.clone();
            y.shortcut_instruction = config.shortcut_instruction.clone();
            y.icon_index = config.icon_index;
            y.use_history = config.use_history;
        }
        res.push(y);
    }
    assert(s.take(s.len() as int) == s);
    res
}

/// Where a session goes in the list: the default session first, then the marked
/// sessions, then the others.
pub open spec fn session_rank(s: ChatSession) -> int {
    if s.uuid@ == default_uuid() {
        0
    } else if s.is_mark {
        1
    } else {
        2
    }
}

/// Whether session `a` goes before session `b`: by rank, then by lowercased name.
pub open spec fn session_lt(a: ChatSession, b: ChatSession) -> bool {
    ||| session_rank(a) < session_rank(b)
    ||| session_rank(a) == session_rank(b) && chars_lt(lowercase(a.name@), lowercase(b.name@))
}

/// No session goes before one that precedes it.
pub open spec fn sessions_sorted(s: Seq<ChatSession>) -> bool {
    forall|i: int, j: int| 0 <= i < j < s.len() ==> !session_lt(#[trigger] s[j], #[trigger] s[i])
}

proof fn lemma_session_lt(a: ChatSession, b: ChatSession, c: ChatSession)
    ensures
        !(session_lt(a, b) && session_lt(b, a)),
        session_lt(a, c) ==> session_lt(a, b) || session_lt(b, c),
{
    lemma_chars_lt_asym(lowercase(a.name@), lowercase(b.name@));
    if session_lt(a, c) && session_rank(a) == session_rank(c) && session_rank(b) == session_rank(a) {
        lemma_chars_lt_weak(lowercase(a.name@), lowercase(b.name@), lowercase(c.name@));
    }
}

fn rank_of(s: &ChatSession) -> (r: u8)
    ensures
        r as int == session_rank(*s),
{
    if str_eq(s.uuid.as_str(), DEFAULT_SESSION_UUID) {
        0
    } else if s.is_mark {
        1
    } else {
        2
    }
}

/// Whether session `a` goes before session `b`.
pub fn session_before(a: &ChatSession, b: &ChatSession) -> (r: bool)
    ensures
        r == session_lt(*a, *b),
{
    let ra = rank_of(a);
    let rb = rank_of(b);
    if ra != rb {
        return ra < rb;
    }
    let la = str_chars(to_lowercase(a.name.as_str()).as_str());
    let lb = str_chars(to_lowercase(b.name.as_str()).as_str());
    chars_vec_lt(&la, &lb)
}

/// The key that orders a session: its group, then its lowercased name.
pub open spec fn session_key(s: ChatSession) -> (int, Seq<char>) {
    (session_rank(s), lowercase(s.name@))
}

/// The sessions of `s` whose key is `k`, in their order in `s`.
pub open spec fn sessions_with_key(s: Seq<ChatSession>, k: (int, Seq<char>)) -> Seq<ChatSession>
    decreases s.len(),
{
    if s.len() == 0 {
        s
    } else if session_key(s.last()) == k {
        sessions_with_key(s.drop_last(), k).push(s.last())
    } else {
        sessions_with_key(s.drop_last(), k)
    }
}

proof fn lemma_sessions_with_key_add(a: Seq<ChatSession>, b: Seq<ChatSession>, k: (int, Seq<char>))
    ensures
        sessions_with_key(a + b, k) == sessions_with_key(a, k) + sessions_with_key(b, k),
    decreases b.len(),
{
    if b.len() == 0 {
        assert(a + b =~= a);
        assert(sessions_with_key(a, k) + sessions_with_key(b, k) =~= sessions_with_key(a, k));
    } else {
        lemma_sessions_with_key_add(a, b.drop_last(), k);
        assert((a + b).drop_last() =~= a + b.drop_last());
        assert((a + b).last() == b.last());
        if session_key(b.last()) == k {
            assert(sessions_with_key(a, k) + sessions_with_key(b.drop_last(), k).push(b.last())
                =~= (sessions_with_key(a, k) + sessions_with_key(b.drop_last(), k)).push(b.last()));
        }
    }
}

proof fn lemma_sessions_with_key_none(a: Seq<ChatSession>, k: (int, Seq<char>))
    requires
        forall|j: int| 0 <= j < a.len() ==> session_key(#[trigger] a[j]) != k,
    ensures
        sessions_with_key(a, k) == Seq::<ChatSession>::empty(),
    decreases a.len(),
{
    if a.len() > 0 {
        assert(session_key(a[a.len() - 1]) != k);
        assert forall|j: int| 0 <= j < a.drop_last().len() implies session_key(
            #[trigger] a.drop_last()[j],
        ) != k by {
            assert(a.drop_last()[j] == a[j]);
        }
        lemma_sessions_with_key_none(a.drop_last(), k);
    }
}

/// Sessions with one key come in the same order in `a` as in `b`.
pub open spec fn same_order_by_key(a: Seq<ChatSession>, b: Seq<ChatSession>) -> bool {
    forall|k: (int, Seq<char>)| #[trigger] sessions_with_key(a, k) == sessions_with_key(b, k)
}

/// Inserting `x` before the first element that does not go before it keeps the order
/// of the sessions of each key, `x` coming first among those of its key.
proof fn lemma_insert_keeps_key_order(out: Seq<ChatSession>, k: int, x: ChatSession, tail: Seq<ChatSession>)
    requires
        0 <= k <= out.len(),
        forall|j: int| 0 <= j < k ==> session_lt(#[trigger] out[j], x),
        same_order_by_key(out, tail),
    ensures
        same_order_by_key(out.insert(k, x), seq![x] + tail),
{
    assert forall|kk: (int, Seq<char>)| #[trigger] sessions_with_key(out.insert(k, x), kk)
        == sessions_with_key(seq![x] + tail, kk) by {
        let a = out.take(k);
        let b = out.skip(k);
        assert(out == a + b);
        assert(out.insert(k, x) =~= a + (seq![x] + b));
        lemma_sessions_with_key_add(a, seq![x] + b, kk);
        lemma_sessions_with_key_add(seq![x], b, kk);
        lemma_sessions_with_key_add(a, b, kk);
        lemma_sessions_with_key_add(seq![x], tail, kk);
        assert(seq![x].drop_last() =~= Seq::<ChatSession>::empty());
        assert(seq![x].last() == x);
        assert(sessions_with_key(Seq::<ChatSession>::empty(), kk) =~= Seq::<ChatSession>::empty());
        assert(sessions_with_key(out, kk) == sessions_with_key(tail, kk));
        if session_key(x) == kk {
            assert forall|j: int| 0 <= j < a.len() implies session_key(#[trigger] a[j]) != kk by {
                assert(a[j] == out[j]);
                assert(session_lt(out[j], x));
                lemma_chars_lt_asym(lowercase(x.name@), lowercase(x.name@));
            }
            lemma_sessions_with_key_none(a, kk);
            assert(Seq::<ChatSession>::empty() + (seq![x] + sessions_with_key(b, kk)) =~= seq![x]
                + sessions_with_key(b, kk));
            assert(Seq::<ChatSession>::empty() + sessions_with_key(b, kk) =~= sessions_with_key(b, kk));
        } else {
            assert(sessions_with_key(seq![x], kk) =~= Seq::<ChatSession>::empty());
            assert(Seq::<ChatSession>::empty() + sessions_with_key(b, kk) =~= sessions_with_key(b, kk));
            assert(Seq::<ChatSession>::empty() + sessions_with_key(tail, kk) =~= sessions_with_key(tail, kk));
        }
    }
}

/// Orders the sessions: the default session first, then the marked sessions, then
/// the others; within each group by name, case aside (`str::to_lowercase`, then the
/// order of strings).
/// Sessions of one group whose names are the same, case aside, keep their order.
pub fn sort_sessions(sessions: Vec<ChatSession>) -> (res: Vec<ChatSession>)
    ensures
        res@.to_multiset() == sessions@.to_multiset(),
        sessions_sorted(res@),
        same_order_by_key(res@, sessions@),
{
    broadcast use vstd::seq_lib::group_to_multiset_ensures;
    broadcast use vstd::multiset::group_multiset_axioms;

    let ghost all = sessions@;
    let mut rest = sessions;
    let mut out: Vec<ChatSession> = Vec::new();
    assert(all.skip(all.len() as int) =~= out@);
    assert(all.take(all.len() as int) =~= all);
    assert(out@.to_multiset() =~= Multiset::<ChatSession>::empty());
    assert(out@.to_multiset().add(rest@.to_multiset()) =~= all.to_multiset());
    while rest.len() > 0
        invariant
            out@.to_multiset().add(rest@.to_multiset()) == all.to_multiset(),
            sessions_sorted(out@),
            rest.len() <= all.len(),
            rest@ == all.take(rest.len() as int),
            same_order_by_key(out@, all.skip(rest.len() as int)),
        decreases rest.len(),
    {
        let ghost before_rest = rest@;
        let ghost n = rest.len() as int;
        let x = rest.pop().unwrap();
        assert(before_rest == rest@.push(x));
        assert(rest@ == all.take(n - 1));
        assert(x == all[n - 1]);
        assert(all.skip(n - 1) =~= seq![x] + all.skip(n));
        let mut k: usize = 0;
        while k < out.len() && session_before(&out[k], &x)
            invariant
                k <= out.len(),
                forall|j: int| 0 <= j < k ==> session_lt(#[trigger] out@[j], x),
            decreases out.len() - k,
        {
            k = k + 1;
        }
        let ghost before_out = out@;
        out.insert(k, x);
        proof {
            assert(out@ == before_out.insert(k as int, x));
            lemma_insert_keeps_key_order(before_out, k as int, x, all.skip(n));
            assert forall|i: int, j: int| 0 <= i < j < out@.len() implies !session_lt(
                #[trigger] out@[j],
                #[trigger] out@[i],
            ) by {
                if j < k {
                    assert(out@[i] == before_out[i] && out@[j] == before_out[j]);
                } else if j == k {
                    assert(out@[i] == before_out[i]);
                    lemma_session_lt(before_out[i], x, x);
                } else if i < k {
                    assert(out@[i] == before_out[i] && out@[j] == before_out[j - 1]);
                    if i == j - 1 {
                    } else {
                        assert(!session_lt(before_out[j - 1], before_out[i]));
                    }
                } else if i == k {
                    assert(out@[j] == before_out[j - 1]);
                    lemma_session_lt(before_out[j - 1], before_out[k as int], x);
                    if (k as int) < j - 1 {
                        assert(!session_lt(before_out[j - 1], before_out[k as int]));
                    }
                } else {
                    assert(out@[i] == before_out[i - 1] && out@[j] == before_out[j - 1]);
                }
            }
            vstd::seq_lib::to_multiset_insert(before_out, k as int, x);
            vstd::seq_lib::to_multiset_build(rest@, x);
            assert(out@.to_multiset() == before_out.to_multiset().insert(x));
            assert(before_rest.to_multiset() == rest@.to_multiset().insert(x));
            assert(out@.to_multiset().add(rest@.to_multiset()) =~= before_out.to_multiset().add(
                before_rest.to_multiset(),
            ));
        }
    }
    assert(rest@.to_multiset() =~= Multiset::<ChatSession>::empty());
    assert(out@.to_multiset().add(rest@.to_multiset()) =~= out@.to_multiset());
    assert(all.skip(0) == all);
    out
}

/// The shortcut instructions offered for the question `q` (already without its
/// leading whitespace) in the current session `cur`: those of the other sessions
/// that begin with it.
pub open spec fn tips_for(s: Seq<ChatSession>, q: Seq<char>, cur: Seq<char>) -> Seq<InstTipItem>
    decreases s.len(),
{
    if s.len() == 0 {
        Seq::empty()
    } else {
        let x = s.last();
        let prev = tips_for(s.drop_last(), q, cur);
        if x.uuid@ != cur && starts_with(x.shortcut_instruction@, q) {
            prev.push(
                InstTipItem {
                    inst: x.shortcut_instruction,
                    session_name: x.name,
                    session_icon_index: x.icon_index,
                },
            )
        } else {
            prev
        }
    }
}

/// The shortcut instructions to offer while `question` is typed in session
/// `current_uuid`: none when the question, without its leading whitespace, is empty
/// or holds a space; else those of the other sessions that begin with it.
pub fn inst_tips(question: &str, current_uuid: &str, sessions: &Vec<ChatSession>) -> (res: Vec<InstTipItem>)
    ensures
        res@ == (if trim_start(question@).len() == 0 || trim_start(question@).contains(' ') {
            Seq::empty()
        } else {
            tips_for(sessions@, trim_start(question@), current_uuid@)
        }),
{
    let q = trimmed_start(question);
    let mut res: Vec<InstTipItem> = Vec::new();
    if q.as_str().is_empty() || str_has_char(q.as_str(), ' ') {
        assert(res@ =~= Seq::<InstTipItem>::empty());
        return res;
    }
    let mut i: usize = 0;
    while i < sessions.len()
        invariant
            i <= sessions.len(),
            res@ == tips_for(sessions@.take(i as int), q@, current_uuid@),
        decreases sessions.len() - i,
    {
        let x = &sessions[i];
        assert(sessions@.take(i + 1).drop_last() == sessions@.take(i as int));
        assert(sessions@.take(i + 1).last() == *x);
        if !str_eq(x.uuid.as_str(), current_uuid) && str_starts_with(
            x.shortcut_instruction.as_str(),
            q.as_str(),
        ) {
            res.push(
                InstTipItem {
                    inst: x.shortcut_instruction.clone(),
                    session_name: x.name.clone(),
                    session_icon_index: x.icon_index,
                },
            );
        }
        i = i + 1;
    }
    assert(sessions@.take(sessions.len() as int) == sessions@);
    res
}

/// `q` without every leading repetition of the non-empty `p` (`str::trim_start_matches`).
pub open spec fn strip_repeated(q: Seq<char>, p: Seq<char>) -> Seq<char>
    decreases q.len(),
{
    if p.len() > 0 && starts_with(q, p) {
        strip_repeated(q.skip(p.len() as int), p)
    } else {
        q
    }
}

/// The first session whose shortcut instruction is non-empty and begins `q`, from
/// position `i` on; `s.len()` when none does.
pub open spec fn shortcut_session(s: Seq<ChatSession>, q: Seq<char>, i: int) -> int
    decreases s.len() - i,
{
    if i < 0 || i >= s.len() {
        s.len() as int
    } else if s[i].shortcut_instruction@.len() > 0 && starts_with(q, s[i].shortcut_instruction@) {
        i
    } else {
        shortcut_session(s, q, i + 1)
    }
}

fn strip_repeated_exec(q: &str, p: &str) -> (res: String)
    ensures
        res@ == strip_repeated(q@, p@),
{
    let v = str_chars(q);
    let pv = str_chars(p);
    let n = v.len();
    let mut i: usize = 0;
    assert(v@.skip(0) == v@);
    if pv.len() == 0 {
        return String::from_str(q);
    }
    loop
        invariant
            i <= n == v.len(),
            pv@ == p@,
            pv@.len() > 0,
            strip_repeated(v@.skip(i as int), pv@) == strip_repeated(q@, p@),
            v@ == q@,
        decreases n - i,
    {
        assert(v@.subrange(i as int, n as int) == v@.skip(i as int));
        if !crate::text::range_starts_with(&v, i, n, &pv) {
            let r = crate::text::chars_to_string(&v, i, n);
            return r;
        }
        assert(v@.skip(i as int).skip(pv@.len() as int) == v@.skip(i + pv.len()));
        i = i + pv.len();
    }
}

/// Switching session by shortcut: the first session whose shortcut instruction is
/// non-empty and begins the question, and the question without every leading
/// repetition of that instruction and without its leading whitespace.
pub fn shortcut_switch(sessions: &Vec<ChatSession>, question: &str) -> (r: Option<(usize, String)>)
    ensures
        r is None <==> shortcut_session(sessions@, question@, 0) == sessions@.len(),
        r matches Some(p) ==> p.0 as int == shortcut_session(sessions@, question@, 0) && p.1@
            == trim_start(
            strip_repeated(question@, sessions@[p.0 as int].shortcut_instruction@),
        ),
{
    let mut i: usize = 0;
    while i < sessions.len()
        invariant
            i <= sessions.len(),
            shortcut_session(sessions@, question@, i as int) == shortcut_session(sessions@, question@, 0),
        decreases sessions.len() - i,
    {
        let inst = sessions[i].shortcut_instruction.as_str();
        if !inst.is_empty() && str_starts_with(question, inst) {
            let stripped = strip_repeated_exec(question, inst);
            let q = trimmed_start(stripped.as_str());
            return Some((i, q));
        }
        i = i + 1;
    }
    None
}

pub open spec fn chats_text(d: Seq<ChatItem>) -> Seq<char>
    decreases d.len(),
{
    if d.len() == 0 {
        Seq::empty()
    } else {
        chats_text(d.drop_last()) + "user:\n"@ + d.last().utext@ + "\n\nbot:\n"@ + d.last().btext@
            + "\n\n"@
    }
}

/// The chat as text to copy: each question after `user:` and each answer after `bot:`.
pub fn session_chats_text(datas: &Vec<ChatItem>) -> (res: String)
    ensures
        res@ == chats_text(datas@),
{
    let mut res = String::new();
    let mut i: usize = 0;
    assert(res@ =~= chats_text(datas@.take(0)));
    while i < datas.len()
        invariant
            i <= datas.len(),
            res@ == chats_text(datas@.take(i as int)),
        decreases datas.len() - i,
    {
        res.append("user:\n");
        res.append(datas[i].utext.as_str());
        res.append("\n\nbot:\n");
        res.append(datas[i].btext.as_str());
        res.append("\n\n");
        assert(datas@.take(i + 1).drop_last() == datas@.take(i as int));
        assert(datas@.take(i + 1).last() == datas@[i as int]);
        i = i + 1;
    }
    assert(datas@.take(datas.len() as int) == datas@);
    res
}

/// The archived chats whose name holds `search` (all of them when it is empty).
pub open spec fn matching_archives(items: Seq<(String, String)>, search: Seq<char>) -> Seq<
    ArchiveChatItem,
>
    decreases items.len(),
{
    if items.len() == 0 {
        Seq::empty()
    } else {
        let x = items.last();
        let prev = matching_archives(items.drop_last(), search);
        if search.len() == 0 || contains_seq(x.1@, search) {
            prev.push(ArchiveChatItem { uuid: x.0, name: x.1 })
        } else {
            prev
        }
    }
}

pub open spec fn archive_lt(a: ArchiveChatItem, b: ArchiveChatItem) -> bool {
    chars_lt(lowercase(a.name@), lowercase(b.name@))
}

pub open spec fn archives_sorted(s: Seq<ArchiveChatItem>) -> bool {
    forall|i: int, j: int| 0 <= i < j < s.len() ==> !archive_lt(#[trigger] s[j], #[trigger] s[i])
}

/// Whether archived chat `a` goes before `b`.
pub fn archive_before(a: &ArchiveChatItem, b: &ArchiveChatItem) -> (r: bool)
    ensures
        r == archive_lt(*a, *b),
{
    let la = str_chars(to_lowercase(a.name.as_str()).as_str());
    let lb = str_chars(to_lowercase(b.name.as_str()).as_str());
    chars_vec_lt(&la, &lb)
}

/// The archived chats of `s` whose lowercased name is `k`, in their order in `s`.
pub open spec fn archives_with_key(s: Seq<ArchiveChatItem>, k: Seq<char>) -> Seq<ArchiveChatItem>
    decreases s.len(),
{
    if s.len() == 0 {
        s
    } else if lowercase(s.last().name@) == k {
        archives_with_key(s.drop_last(), k).push(s.last())
    } else {
        archives_with_key(s.drop_last(), k)
    }
}

proof fn lemma_archives_with_key_add(a: Seq<ArchiveChatItem>, b: Seq<ArchiveChatItem>, k: Seq<char>)
    ensures
        archives_with_key(a + b, k) == archives_with_key(a, k) + archives_with_key(b, k),
    decreases b.len(),
{
    if b.len() == 0 {
        assert(a + b =~= a);
        assert(archives_with_key(a, k) + archives_with_key(b, k) =~= archives_with_key(a, k));
    } else {
        lemma_archives_with_key_add(a, b.drop_last(), k);
        assert((a + b).drop_last() =~= a + b.drop_last());
        assert((a + b).last() == b.last());
        if lowercase(b.last().name@) == k {
            assert(archives_with_key(a, k) + archives_with_key(b.drop_last(), k).push(b.last())
                =~= (archives_with_key(a, k) + archives_with_key(b.drop_last(), k)).push(b.last()));
        }
    }
}

proof fn lemma_archives_with_key_none(a: Seq<ArchiveChatItem>, k: Seq<char>)
    requires
        forall|j: int| 0 <= j < a.len() ==> lowercase((#[trigger] a[j]).name@) != k,
    ensures
        archives_with_key(a, k) == Seq::<ArchiveChatItem>::empty(),
    decreases a.len(),
{
    if a.len() > 0 {
        assert(lowercase(a[a.len() - 1].name@) != k);
        assert forall|j: int| 0 <= j < a.drop_last().len() implies lowercase(
            (#[trigger] a.drop_last()[j]).name@,
        ) != k by {
            assert(a.drop_last()[j] == a[j]);
        }
        lemma_archives_with_key_none(a.drop_last(), k);
    }
}

/// Archived chats whose names are the same, case aside, come in the same order in `a`
/// as in `b`.
pub open spec fn same_archive_order_by_key(a: Seq<ArchiveChatItem>, b: Seq<ArchiveChatItem>) -> bool {
    forall|k: Seq<char>| #[trigger] archives_with_key(a, k) == archives_with_key(b, k)
}

proof fn lemma_insert_keeps_archive_order(
    out: Seq<ArchiveChatItem>,
    k: int,
    x: ArchiveChatItem,
    tail: Seq<ArchiveChatItem>,
)
    requires
        0 <= k <= out.len(),
        forall|j: int| 0 <= j < k ==> archive_lt(#[trigger] out[j], x),
        same_archive_order_by_key(out, tail),
    ensures
        same_archive_order_by_key(out.insert(k, x), seq![x] + tail),
{
    assert forall|kk: Seq<char>| #[trigger] archives_with_key(out.insert(k, x), kk)
        == archives_with_key(seq![x] + tail, kk) by {
        let a = out.take(k);
        let b = out.skip(k);
        assert(out == a + b);
        assert(out.insert(k, x) =~= a + (seq![x] + b));
        lemma_archives_with_key_add(a, seq![x] + b, kk);
        lemma_archives_with_key_add(seq![x], b, kk);
        lemma_archives_with_key_add(a, b, kk);
        lemma_archives_with_key_add(seq![x], tail, kk);
        assert(seq![x].drop_last() =~= Seq::<ArchiveChatItem>::empty());
        assert(seq![x].last() == x);
        assert(archives_with_key(Seq::<ArchiveChatItem>::empty(), kk) =~= Seq::<ArchiveChatItem>::empty());
        assert(archives_with_key(out, kk) == archives_with_key(tail, kk));
        if lowercase(x.name@) == kk {
            assert forall|j: int| 0 <= j < a.len() implies lowercase((#[trigger] a[j]).name@) != kk by {
                assert(a[j] == out[j]);
                assert(archive_lt(out[j], x));
                lemma_chars_lt_asym(lowercase(x.name@), lowercase(x.name@));
            }
            lemma_archives_with_key_none(a, kk);
            assert(Seq::<ArchiveChatItem>::empty() + (seq![x] + archives_with_key(b, kk)) =~= seq![x]
                + archives_with_key(b, kk));
        } else {
            assert(archives_with_key(seq![x], kk) =~= Seq::<ArchiveChatItem>::empty());
            assert(Seq::<ArchiveChatItem>::empty() + archives_with_key(b, kk) =~= archives_with_key(b, kk));
            assert(Seq::<ArchiveChatItem>::empty() + archives_with_key(tail, kk) =~= archives_with_key(
                tail,
                kk,
            ));
        }
    }
}

/// The list of archived chats (identifier, name) of a session to show: those whose
/// name holds `search_text` (all of them when it is empty), ordered by name, case
/// aside. Chats whose names are the same, case aside, keep their order.
pub fn archive_list(items: Vec<(String, String)>, search_text: &str) -> (res: Vec<ArchiveChatItem>)
    ensures
        res@.to_multiset() == matching_archives(items@, search_text@).to_multiset(),
        archives_sorted(res@),
        same_archive_order_by_key(res@, matching_archives(items@, search_text@)),
{
    broadcast use vstd::seq_lib::group_to_multiset_ensures;
    broadcast use vstd::multiset::group_multiset_axioms;

    let ghost s = items@;
    let mut picked: Vec<ArchiveChatItem> = Vec::new();
    for x in it: items.into_iter()
        invariant
            it.seq() == s,
            picked@ == matching_archives(s.take(it.index() as int), search_text@),
    {
        let ghost i = it.index();
        assert(s.take(i + 1).drop_last() == s.take(i as int));
        assert(s.take(i + 1).last() == x);
        if search_text.is_empty() || str_contains(x.1.as_str(), search_text) {
            picked.push(ArchiveChatItem { uuid: x.0, name: x.1 });
        }
    }
    assert(s.take(s.len() as int) == s);
    let ghost all = picked@;
    let mut rest = picked;
    let mut out: Vec<ArchiveChatItem> = Vec::new();
    assert(all.skip(all.len() as int) =~= out@);
    assert(all.take(all.len() as int) =~= all);
    assert(out@.to_multiset() =~= Multiset::<ArchiveChatItem>::empty());
    assert(out@.to_multiset().add(rest@.to_multiset()) =~= all.to_multiset());
    while rest.len() > 0
        invariant
            out@.to_multiset().add(rest@.to_multiset()) == all.to_multiset(),
            archives_sorted(out@),
            rest.len() <= all.len(),
            rest@ == all.take(rest.len() as int),
            same_archive_order_by_key(out@, all.skip(rest.len() as int)),
        decreases rest.len(),
    {
        let ghost before_rest = rest@;
        let ghost n = rest.len() as int;
        let x = rest.pop().unwrap();
        assert(before_rest == rest@.push(x));
        assert(rest@ == all.take(n - 1));
        assert(x == all[n - 1]);
        assert(all.skip(n - 1) =~= seq![x] + all.skip(n));
        let mut k: usize = 0;
        while k < out.len() && archive_before(&out[k], &x)
            invariant
                k <= out.len(),
                forall|j: int| 0 <= j < k ==> archive_lt(#[trigger] out@[j], x),
            decreases out.len() - k,
        {
            k = k + 1;
        }
        let ghost before_out = out@;
        out.insert(k, x);
        proof {
            assert(out@ == before_out.insert(k as int, x));
            lemma_insert_keeps_archive_order(before_out, k as int, x, all.skip(n));
            assert forall|i: int, j: int| 0 <= i < j < out@.len() implies !archive_lt(
                #[trigger] out@[j],
                #[trigger] out@[i],
            ) by {
                if j < k {
                    assert(out@[i] == before_out[i] && out@[j] == before_out[j]);
                } else if j == k {
                    assert(out@[i] == before_out[i]);
                    lemma_chars_lt_asym(lowercase(before_out[i].name@), lowercase(x.name@));
                } else if i < k {
                    assert(out@[i] == before_out[i] && out@[j] == before_out[j - 1]);
                    if i != j - 1 {
                        assert(!archive_lt(before_out[j - 1], before_out[i]));
                    }
                } else if i == k {
                    assert(out@[j] == before_out[j - 1]);
                    if archive_lt(before_out[j - 1], x) {
                        lemma_chars_lt_weak(
                            lowercase(before_out[j - 1].name@),
                            lowercase(before_out[k as int].name@),
                            lowercase(x.name@),
                        );
                    }
                    if (k as int) < j - 1 {
                        assert(!archive_lt(before_out[j - 1], before_out[k as int]));
                    }
                } else {
                    assert(out@[i] == before_out[i - 1] && out@[j] == before_out[j - 1]);
                }
            }
            vstd::seq_lib::to_multiset_insert(before_out, k as int, x);
            vstd::seq_lib::to_multiset_build(rest@, x);
            assert(out@.to_multiset().add(rest@.to_multiset()) =~= before_out.to_multiset().add(
                before_rest.to_multiset(),
            ));
        }
    }
    assert(rest@.to_multiset() =~= Multiset::<ArchiveChatItem>::empty());
    assert(out@.to_multiset().add(rest@.to_multiset()) =~= out@.to_multiset());
    assert(all.skip(0) == all);
    out
}

/// The archived chats of `s` but those whose identifier is `uuid`.
pub open spec fn without_archive(s: Seq<ArchiveChatItem>, uuid: Seq<char>) -> Seq<ArchiveChatItem>
    decreases s.len(),
{
    if s.len() == 0 {
        s
    } else if s.last().uuid@ == uuid {
        without_archive(s.drop_last(), uuid)
    } else {
        without_archive(s.drop_last(), uuid).push(s.last())
    }
}

/// Removes the archived chats whose identifier is `uuid` from the list.
pub fn delete_archive_item(items: Vec<ArchiveChatItem>, uuid: &str) -> (res: Vec<ArchiveChatItem>)
    ensures
        res@ == without_archive(items@, uuid@),
{
    let ghost s = items@;
    let mut res: Vec<ArchiveChatItem> = Vec::new();
    for x in it: items.into_iter()
        invariant
            it.seq() == s,
            res@ == without_archive(s.take(it.index() as int), uuid@),
    {
        let ghost i = it.index();
        assert(s.take(i + 1).drop_last() == s.take(i as int));
        assert(s.take(i + 1).last() == x);
        if !str_eq(x.uuid.as_str(), uuid) {
            res.push(x);
        }
    }
    assert(s.take(s.len() as int) == s);
    res
}

/// No two sessions share an identifier.
pub open spec fn distinct_uuids(s: Seq<ChatSession>) -> bool {
    forall|i: int, j: int| 0 <= i < j < s.len() ==> (#[trigger] s[i]).uuid@ != (#[trigger] s[j]).uuid@
}

/// Sessions `a` and `b` agree in all but their chat.
pub open spec fn same_settings(a: ChatSession, b: ChatSession) -> bool {
    &&& a.uuid == b.uuid
    &&& a.name == b.name
    &&& a.system_prompt == b.system_prompt
    &&& a.api_model == b.api_model
    &&& a.shortcut_instruction == b.shortcut_instruction
    &&& a.use_history == b.use_history
    &&& a.is_mark == b.is_mark
    &&& a.icon_index == b.icon_index
}

/// The chat of a session that is switched to, `out`, from its saved chat `items` and
/// the cache `m` (keyed by session `key`): when the text cached for the session
/// belongs to its last chat item, that answer takes the text in.
pub open spec fn merged_chat(
    items: Seq<ChatItem>,
    m: Map<Seq<char>, (Seq<char>, Seq<char>)>,
    key: Seq<char>,
    out: Seq<ChatItemView>,
) -> bool {
    if items.len() > 0 && m.contains_key(key) && items.last().uuid@ == m[key].0 {
        let o = items.last()@;
        let x = out.last();
        &&& out.len() == items.len()
        &&& out.drop_last() == item_views(items.drop_last())
        &&& x.btext == streamed_btext(o.btext, m[key].1)
        &&& blocks(x.btext_items) == parse_spec(x.btext)
        &&& x.uuid == o.uuid && x.utext == o.utext && x.timestamp == o.timestamp
        &&& x.etext == o.etext && x.is_mark == o.is_mark && x.utext_items == o.utext_items
    } else {
        out == item_views(items)
    }
}

/// Text that streams in for a session while it is not on screen is kept: when the
/// session comes back on screen, the answer of its last chat item takes in what was
/// held for that item and the pieces that arrived since, in order; the other chat
/// items are as they were.
pub proof fn law_background_text_kept(
    items: Seq<ChatItem>,
    m: Map<Seq<char>, (Seq<char>, Seq<char>)>,
    key: Seq<char>,
    a: Seq<char>,
    b: Seq<char>,
    out: Seq<ChatItemView>,
)
    requires
        items.len() > 0,
        merged_chat(
            items,
            cache_after_update(cache_after_update(m, key, items.last().uuid@, a), key, items.last().uuid@, b),
            key,
            out,
        ),
    ensures
        out.len() == items.len(),
        out.drop_last() == item_views(items.drop_last()),
        out.last().btext == streamed_btext(
            items.last().btext@,
            (if m.contains_key(key) && m[key].0 == items.last().uuid@ {
                m[key].1
            } else {
                Seq::empty()
            }) + a + b,
        ),
{
    let u = items.last().uuid@;
    law_cache_gathers_text(m, key, u, a, b);
    if !(m.contains_key(key) && m[key].0 == u) {
        assert(Seq::<char>::empty() + a + b == a + b);
    }
}

fn set_chat(sessions: &mut Vec<ChatSession>, i: usize, items: Vec<ChatItem>)
    requires
        i < old(sessions)@.len(),
    ensures
        final(sessions)@.len() == old(sessions)@.len(),
        forall|j: int|
            0 <= j < old(sessions)@.len() && j != i ==> final(sessions)@[j] == old(sessions)@[j],
        same_settings(final(sessions)@[i as int], old(sessions)@[i as int]),
        final(sessions)@[i as int].chat_items == items,
{
    let mut s = sessions.remove(i);
    s.chat_items = items;
    sessions.insert(i, s);
}

/// Switches from session `old_uuid` to session `new_uuid`: the old session keeps the
/// chat on screen, `datas`; the chat of the new session comes on screen, with the
/// text cached for it taken in. Nothing happens when the two are the same or the new
/// one is not named. Returns the index of the new session when it is found.
pub fn switch_session(
    sessions: &mut Vec<ChatSession>,
    datas: &mut Vec<ChatItem>,
    cache: &mut ChatCache,
    old_uuid: &str,
    new_uuid: &str,
) -> (r: Option<usize>)
    requires
        distinct_uuids(old(sessions)@),
    ensures
        ({
            let ss = old(sessions)@;
            let io = first_session(ss, old_uuid@);
            let inn = first_session(ss, new_uuid@);
            if old_uuid@ == new_uuid@ || new_uuid@.len() == 0 {
                &&& r is None
                &&& final(sessions)@ == ss
                &&& final(datas)@ == old(datas)@
                &&& final(cache)@ == old(cache)@
            } else {
                &&& final(sessions)@.len() == ss.len()
                &&& forall|j: int|
                    0 <= j < ss.len() && j != io && j != inn ==> final(sessions)@[j] == ss[j]
                &&& io >= 0 ==> same_settings(final(sessions)@[io], ss[io]) && item_views(
                    final(sessions)@[io].chat_items@,
                ) == item_views(old(datas)@)
                &&& inn < 0 ==> r is None && final(datas)@ == old(datas)@ && final(cache)@
                    == old(cache)@
                &&& inn >= 0 ==> {
                    let items = ss[inn].chat_items@;
                    &&& r == Some(inn as usize)
                    &&& same_settings(final(sessions)@[inn], ss[inn])
                    &&& item_views(final(sessions)@[inn].chat_items@) == item_views(final(datas)@)
                    &&& merged_chat(items, old(cache)@, new_uuid@, item_views(final(datas)@))
                    &&& final(cache)@ == (if items.len() > 0 {
                        old(cache)@.remove(new_uuid@)
                    } else {
                        old(cache)@
                    })
                }
            }
        }),
{
    if str_eq(old_uuid, new_uuid) || new_uuid.is_empty() {
        return None;
    }
    proof {
        lemma_first_session(sessions@, old_uuid@);
        lemma_first_session(sessions@, new_uuid@);
    }
    let io = session_index(sessions, old_uuid);
    let inn = session_index(sessions, new_uuid);
    match io {
        Some(i) => {
            let copy = copy_chat_items(datas);
            set_chat(sessions, i, copy);
        },
        None => {},
    }
    match inn {
        None => None,
        Some(n) => {
            proof {
                if let Some(i) = io {
                    assert(i != n);
                }
            }
            let ghost items = old(sessions)@[n as int].chat_items@;
            let mut merged = copy_chat_items(&sessions[n].chat_items);
            let ghost m0 = cache@;
            if merged.len() > 0 {
                let cached = get_cache(cache, new_uuid);
                match cached {
                    Some(p) => {
                        let k = merged.len() - 1;
                        assert(item_views(merged@).len() == item_views(items).len());
                        assert(item_views(merged@)[k as int] == merged@[k as int]@);
                        assert(item_views(items)[k as int] == items[k as int]@);
                        assert(item_views(merged@)[k as int] == item_views(items)[k as int]);
                        assert(merged@[k as int]@ == items[k as int]@);
                        if str_eq(merged[k].uuid.as_str(), p.0.as_str()) {
                            let ghost pre = merged@;
                            let mut last = merged.pop().unwrap();
                            append_answer(&mut last, p.1.as_str());
                            merged.push(last);
                            assert(item_views(merged@).last() == merged@.last()@);
                            assert(item_views(merged@).drop_last() == item_views(pre.drop_last()));
                            assert(item_views(pre.drop_last()) == item_views(pre).drop_last());
                            assert(item_views(pre).drop_last() == item_views(items).drop_last());
                            assert(item_views(items).drop_last() == item_views(items.drop_last()));
                        }
                    },
                    None => {},
                }
            }
            let copy = copy_chat_items(&merged);
            set_chat(sessions, n, copy);
            *datas = merged;
            Some(n)
        },
    }
}

/// In the ordered list, the default session comes first.
pub proof fn law_default_session_first(s: Seq<ChatSession>, k: int)
    requires
        sessions_sorted(s),
        0 <= k < s.len(),
        s[k].uuid@ == default_uuid(),
    ensures
        s[0].uuid@ == default_uuid(),
{
    if s[0].uuid@ != default_uuid() {
        assert(session_lt(s[k], s[0]));
        assert(k > 0);
    }
}

/// In the ordered list, apart from the default session, marked sessions come before
/// unmarked ones, and sessions of one group come in the order of their lowercased
/// names.
pub proof fn law_marked_sessions_first(s: Seq<ChatSession>, i: int, j: int)
    requires
        sessions_sorted(s),
        0 <= i < j < s.len(),
        s[i].uuid@ != default_uuid(),
        s[j].uuid@ != default_uuid(),
    ensures
        s[j].is_mark ==> s[i].is_mark,
        s[i].is_mark == s[j].is_mark ==> !chars_lt(lowercase(s[j].name@), lowercase(s[i].name@)),
{
    assert(!session_lt(s[j], s[i]));
}

/// Flipping the mark of the same sessions twice leaves them as they were.
pub proof fn law_toggle_session_twice(s: Seq<ChatSession>, uuid: Seq<char>)
    ensures
        toggled_sessions(toggled_sessions(s, uuid), uuid) == s,
    decreases s.len(),
{
    if s.len() > 0 {
        law_toggle_session_twice(s.drop_last(), uuid);
        let t = toggled_sessions(s, uuid);
        assert(t.drop_last() == toggled_sessions(s.drop_last(), uuid));
        assert(s == s.drop_last().push(s.last()));
    }
}

/// Deleting a session removes the sessions of that identifier and keeps every other
/// one; the default session is never deleted.
pub proof fn law_delete_session(s: Seq<ChatSession>, uuid: Seq<char>)
    ensures
        forall|i: int|
            0 <= i < without_session_uuid(s, uuid).len() ==> (#[trigger] without_session_uuid(
                s,
                uuid,
            )[i]).uuid@ != uuid,
        forall|i: int|
            0 <= i < s.len() && s[i].uuid@ != uuid ==> without_session_uuid(s, uuid).contains(
                #[trigger] s[i],
            ),
    decreases s.len(),
{
    if s.len() > 0 {
        law_delete_session(s.drop_last(), uuid);
        let w = without_session_uuid(s.drop_last(), uuid);
        let r = without_session_uuid(s, uuid);
        assert forall|i: int| 0 <= i < r.len() implies (#[trigger] r[i]).uuid@ != uuid by {
            if i < w.len() {
                assert(r[i] == w[i]);
            }
        }
        assert forall|i: int| 0 <= i < s.len() && s[i].uuid@ != uuid implies r.contains(
            #[trigger] s[i],
        ) by {
            if i < s.len() - 1 {
                assert(s[i] == s.drop_last()[i]);
                assert(w.contains(s[i]));
                let j = choose|j: int| 0 <= j < w.len() && w[j] == s[i];
                if s.last().uuid@ != uuid {
                    assert(r[j] == w[j]);
                }
            } else {
                assert(r[r.len() - 1] == s.last());
            }
        }
    }
}

/// Every shortcut instruction offered begins with the question and belongs to a
/// session other than the current one.
pub proof fn law_tips_match_question(s: Seq<ChatSession>, q: Seq<char>, cur: Seq<char>)
    ensures
        forall|i: int|
            0 <= i < tips_for(s, q, cur).len() ==> {
                let t = #[trigger] tips_for(s, q, cur)[i];
                &&& starts_with(t.inst@, q)
                &&& exists|k: int|
                    0 <= k < s.len() && s[k].uuid@ != cur && s[k].shortcut_instruction == t.inst
            },
    decreases s.len(),
{
    if s.len() > 0 {
        law_tips_match_question(s.drop_last(), q, cur);
        let prev = tips_for(s.drop_last(), q, cur);
        let r = tips_for(s, q, cur);
        assert forall|i: int| 0 <= i < r.len() implies {
            let t = #[trigger] r[i];
            &&& starts_with(t.inst@, q)
            &&& exists|k: int|
                0 <= k < s.len() && s[k].uuid@ != cur && s[k].shortcut_instruction == t.inst
        } by {
            if i < prev.len() {
                assert(r[i] == prev[i]);
                let k = choose|k: int|
                    0 <= k < s.len() - 1 && s.drop_last()[k].uuid@ != cur
                        && s.drop_last()[k].shortcut_instruction == prev[i].inst;
                assert(s[k] == s.drop_last()[k]);
            } else {
                let k = s.len() - 1;
                assert(s[k].uuid@ != cur && s[k].shortcut_instruction == r[i].inst);
            }
        }
    }
}

/// Adds an archived chat named `name` to the list, with a new identifier, which it
/// returns.
pub fn new_archive_item(items: &mut Vec<ArchiveChatItem>, name: &str) -> (uuid: String)
    ensures
        is_uuid_text(uuid@),
        final(items)@.len() == old(items)@.len() + 1,
        final(items)@.drop_last() == old(items)@,
        final(items)@.last().name@ == name@,
        final(items)@.last().uuid@ == uuid@,
{
    let uuid = new_uuid();
    items.push(ArchiveChatItem { name: String::from_str(name), uuid: uuid.clone() });
    assert(items@.drop_last() == old(items)@);
    uuid
}

/// What is restored of a saved chat item is what was saved of it: its identifier,
/// question, answer, time and mark, with no error text and both texts rendered again.
pub proof fn law_saved_chat_restores(x: ChatItem, y: ChatItem)
    requires
        restored_item(saved_chat(x), y),
    ensures
        y.uuid == x.uuid,
        y.utext == x.utext,
        y.btext == x.btext,
        y.timestamp == x.timestamp,
        y.is_mark == x.is_mark,
        y.etext@.len() == 0,
        blocks(y.btext_items@) == parse_spec(x.btext@),
        blocks(y.utext_items@) == parse_spec(x.utext@),
{
}


/// Saving the edited settings of a session: the list keeps its length and order;
/// every session whose identifier is the edited one takes the name, system prompt,
/// model, shortcut instruction, icon and history flag of the settings and keeps its
/// identifier, mark and chat; every other session is unchanged.
pub proof fn law_edit_session_takes_settings(s: Seq<ChatSession>, uuid: Seq<char>, c: SessionConfig)
    ensures
        edited_sessions(s, uuid, c).len() == s.len(),
        forall|i: int|
            0 <= i < s.len() ==> {
                let r = #[trigger] edited_sessions(s, uuid, c)[i];
                if s[i].uuid@ == uuid {
                    &&& r.name == c.name
                    &&& r.system_prompt == c.system_prompt
                    &&& r.api_model == c.api_model
                    &&& r.shortcut_instruction == c.shortcut_instruction
                    &&& r.icon_index == c.icon_index
                    &&& r.use_history == c.use_history
                    &&& r.uuid == s[i].uuid
                    &&& r.is_mark == s[i].is_mark
                    &&& r.chat_items == s[i].chat_items
                } else {
                    r == s[i]
                }
            },
    decreases s.len(),
{
    if s.len() > 0 {
        law_edit_session_takes_settings(s.drop_last(), uuid, c);
        assert forall|i: int| 0 <= i < s.len() - 1 implies #[trigger] edited_sessions(s, uuid, c)[i]
            == edited_sessions(s.drop_last(), uuid, c)[i] by {}
        assert forall|i: int| 0 <= i < s.len() - 1 implies s.drop_last()[i] == #[trigger] s[i] by {}
    }
}

/// Whether `search` occurs in `name`: some stretch of `name` is `search`.
pub open spec fn occurs_in(name: Seq<char>, search: Seq<char>) -> bool {
    exists|k: int| 0 <= k && k + search.len() <= name.len() && #[trigger] name.subrange(k, k + search.len()) == search
}

/// The archived chat that the stored pair (identifier, name) `x` stands for.
pub open spec fn archive_of(x: (String, String)) -> ArchiveChatItem {
    ArchiveChatItem { uuid: x.0, name: x.1 }
}

/// Whether the archived chat named `name` is to be listed for the search text.
pub open spec fn searched(name: Seq<char>, search: Seq<char>) -> bool {
    search.len() == 0 || occurs_in(name, search)
}

/// Listing archived chats: a chat of `items` is listed exactly when the search text is
/// empty or occurs in its name as stored; so a search text equal to a name lists that
/// chat. `res` is what `archive_list` returns.
pub proof fn law_archive_search_in_name(
    items: Seq<(String, String)>,
    search: Seq<char>,
    res: Seq<ArchiveChatItem>,
)
    requires
        res.to_multiset() == matching_archives(items, search).to_multiset(),
    ensures
        forall|i: int|
            0 <= i < items.len() && searched(items[i].1@, search) ==> res.contains(
                archive_of(#[trigger] items[i]),
            ),
        forall|j: int|
            #![trigger res[j]]
            0 <= j < res.len() ==> exists|i: int|
                #![trigger items[i]]
                0 <= i < items.len() && res[j] == archive_of(items[i]) && searched(items[i].1@, search),
        forall|i: int|
            0 <= i < items.len() && items[i].1@ == search ==> res.contains(
                archive_of(#[trigger] items[i]),
            ),
{
    lemma_matching_archives(items, search);
    let m = matching_archives(items, search);
    assert forall|i: int| 0 <= i < items.len() && searched(items[i].1@, search) implies res.contains(
        archive_of(#[trigger] items[i]),
    ) by {
        let a = archive_of(items[i]);
        vstd::seq_lib::to_multiset_contains(m, a);
        vstd::seq_lib::to_multiset_contains(res, a);
    }
    assert forall|j: int| #![trigger res[j]] 0 <= j < res.len() implies exists|i: int|
        #![trigger items[i]]
        0 <= i < items.len() && res[j] == archive_of(items[i]) && searched(items[i].1@, search) by {
        let a = res[j];
        assert(res.contains(a));
        vstd::seq_lib::to_multiset_contains(m, a);
        vstd::seq_lib::to_multiset_contains(res, a);
        let jj = choose|jj: int| 0 <= jj < m.len() && m[jj] == a;
        assert(m[jj] == a);
    }
    assert forall|i: int| 0 <= i < items.len() && items[i].1@ == search implies res.contains(
        archive_of(#[trigger] items[i]),
    ) by {
        assert(items[i].1@.subrange(0int, 0int + search.len()) == search);
        assert(searched(items[i].1@, search));
        let a = archive_of(items[i]);
        vstd::seq_lib::to_multiset_contains(m, a);
        vstd::seq_lib::to_multiset_contains(res, a);
    }
}

proof fn lemma_matching_archives(items: Seq<(String, String)>, search: Seq<char>)
    ensures
        forall|i: int|
            0 <= i < items.len() && searched(items[i].1@, search) ==> matching_archives(
                items,
                search,
            ).contains(archive_of(#[trigger] items[i])),
        forall|j: int|
            0 <= j < matching_archives(items, search).len() ==> searched(
                (#[trigger] matching_archives(items, search)[j]).name@,
                search,
            ) && items.map_values(|x: (String, String)| archive_of(x)).contains(
                matching_archives(items, search)[j],
            ),
    decreases items.len(),
{
    if items.len() > 0 {
        let d = items.drop_last();
        lemma_matching_archives(d, search);
        let prev = matching_archives(d, search);
        let m = matching_archives(items, search);
        let x = items.last();
        assert(searched(x.1@, search) == (search.len() == 0 || contains_seq(x.1@, search)));
        assert forall|i: int| 0 <= i < items.len() && searched(items[i].1@, search) implies m.contains(
            archive_of(#[trigger] items[i]),
        ) by {
            if i < items.len() - 1 {
                assert(d[i] == items[i]);
                let a = archive_of(items[i]);
                assert(prev.contains(a));
                let j = choose|j: int| 0 <= j < prev.len() && prev[j] == a;
                assert(m[j] == a);
            } else {
                assert(m[m.len() - 1] == archive_of(x));
            }
        }
        let am = items.map_values(|y: (String, String)| archive_of(y));
        let ad = d.map_values(|y: (String, String)| archive_of(y));
        assert forall|j: int| 0 <= j < m.len() implies searched((#[trigger] m[j]).name@, search)
            && am.contains(m[j]) by {
            if j < prev.len() {
                assert(m[j] == prev[j]);
                assert(ad.contains(prev[j]));
                let k = choose|k: int| 0 <= k < ad.len() && ad[k] == prev[j];
                assert(am[k] == ad[k]);
            } else {
                assert(m.len() > prev.len());
                assert(search.len() == 0 || contains_seq(x.1@, search));
                assert(m[j] == archive_of(x));
                assert(am[items.len() - 1] == archive_of(x));
            }
        }
        assert(m == matching_archives(items, search));
    } else {
        assert(matching_archives(items, search).len() == 0);
    }
}

} // verus!
