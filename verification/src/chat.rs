//! The state of the chats: the flags that stop a session's reply, the text that
//! streams in for sessions not on screen, the chat items of the current session and
//! what each chat action does to them.
use vstd::prelude::*;
use crate::render::{blocks, parse_chat_text, parse_spec, CodeTextItem, TextBlock};
use crate::text::{is_blank, str_eq, trim, trim_start, trimmed_start};

verus! {

/// The text a reply shows until its first words arrive.
pub const LOADING_STRING: &'static str = "Thinking...";

pub open spec fn loading() -> Seq<char> {
    "Thinking..."@
}

/// The sessions whose reply has been stopped.
pub struct StopChats {
    stopped: Vec<String>,
}

pub open spec fn name_set(s: Seq<String>) -> Set<Seq<char>>
    decreases s.len(),
{
    if s.len() == 0 {
        Set::empty()
    } else {
        name_set(s.drop_last()).insert(s.last()@)
    }
}

pub open spec fn without_name(s: Seq<String>, k: Seq<char>) -> Seq<String>
    decreases s.len(),
{
    if s.len() == 0 {
        s
    } else if s.last()@ == k {
        without_name(s.drop_last(), k)
    } else {
        without_name(s.drop_last(), k).push(s.last())
    }
}

proof fn lemma_without_name(s: Seq<String>, k: Seq<char>)
    ensures
        name_set(without_name(s, k)) == name_set(s).remove(k),
    decreases s.len(),
{
    if s.len() > 0 {
        lemma_without_name(s.drop_last(), k);
        let w = without_name(s.drop_last(), k);
        if s.last()@ != k {
            assert(w.push(s.last()).drop_last() == w);
            assert(name_set(w.push(s.last())) == name_set(w).insert(s.last()@));
        }
        assert(name_set(without_name(s, k)) =~= name_set(s).remove(k));
    } else {
        assert(name_set(s).remove(k) =~= Set::<Seq<char>>::empty());
    }
}

proof fn lemma_name_set_contains(s: Seq<String>, i: int)
    requires
        0 <= i < s.len(),
    ensures
        name_set(s).contains(s[i]@),
    decreases s.len(),
{
    if i < s.len() - 1 {
        lemma_name_set_contains(s.drop_last(), i);
    }
}

proof fn lemma_name_set_member(s: Seq<String>, k: Seq<char>)
    requires
        name_set(s).contains(k),
    ensures
        exists|i: int| 0 <= i < s.len() && s[i]@ == k,
    decreases s.len(),
{
    if s.last()@ != k {
        lemma_name_set_member(s.drop_last(), k);
        let i = choose|i: int| 0 <= i < s.len() - 1 && s.drop_last()[i]@ == k;
        assert(s[i]@ == k);
    }
}

impl View for StopChats {
    type V = Set<Seq<char>>;

    closed spec fn view(&self) -> Set<Seq<char>> {
        name_set(self.stopped@)
    }
}

fn remove_name(v: Vec<String>, k: &str) -> (res: Vec<String>)
    ensures
        res@ == without_name(v@, k@),
{
    let mut res: Vec<String> = Vec::new();
    let ghost s = v@;
    for x in it: v.into_iter()
        invariant
            it.seq() == s,
            res@ == without_name(s.take(it.index() as int), k@),
    {
        let ghost i = it.index();
        assert(s.take(i + 1).drop_last() == s.take(i as int));
        assert(s.take(i + 1).last() == x);
        if !str_eq(x.as_str(), k) {
            res.push(x);
        }
    }
    assert(s.take(s.len() as int) == s);
    res
}

impl StopChats {
    /// No session stopped.
    pub fn new() -> (r: StopChats)
        ensures
            r@ == Set::<Seq<char>>::empty(),
    {
        let r = StopChats { stopped: Vec::new() };
        assert(r@ =~= Set::<Seq<char>>::empty());
        r
    }
}

/// Marks the reply of session `suuid` as stopped, or clears the mark.
pub fn set_stop_chat(stops: &mut StopChats, suuid: String, is_stop: bool)
    ensures
        final(stops)@ == (if is_stop {
            old(stops)@.insert(suuid@)
        } else {
            old(stops)@.remove(suuid@)
        }),
{
    let mut v: Vec<String> = Vec::new();
    std::mem::swap(&mut v, &mut stops.stopped);
    let mut kept = remove_name(v, suuid.as_str());
    proof {
        lemma_without_name(old(stops).stopped@, suuid@);
    }
    if is_stop {
        kept.push(suuid);
        assert(name_set(kept@) == name_set(kept@.drop_last()).insert(suuid@));
        assert(kept@.drop_last() == without_name(old(stops).stopped@, suuid@));
        assert(name_set(kept@) =~= old(stops)@.insert(suuid@));
    }
    stops.stopped = kept;
}

/// Whether the reply of session `suuid` has been stopped.
pub fn is_stop_chat(stops: &StopChats, suuid: &str) -> (r: bool)
    ensures
        r == stops@.contains(suuid@),
{
    let mut i: usize = 0;
    while i < stops.stopped.len()
        invariant
            i <= stops.stopped.len(),
            forall|k: int| 0 <= k < i ==> stops.stopped@[k]@ != suuid@,
        decreases stops.stopped.len() - i,
    {
        if str_eq(stops.stopped[i].as_str(), suuid) {
            proof {
                lemma_name_set_contains(stops.stopped@, i as int);
            }
            return true;
        }
        i = i + 1;
    }
    proof {
        if name_set(stops.stopped@).contains(suuid@) {
            lemma_name_set_member(stops.stopped@, suuid@);
        }
    }
    false
}

/// Text that arrived for a chat item of a session that was not on screen.
pub struct CacheEntry {
    pub suuid: String,
    pub uuid: String,
    pub text: String,
}

/// The text received in the background, per session: the chat item it belongs to and
/// the text so far.
pub struct ChatCache {
    entries: Vec<CacheEntry>,
}

pub open spec fn entry_map(s: Seq<CacheEntry>) -> Map<Seq<char>, (Seq<char>, Seq<char>)>
    decreases s.len(),
{
    if s.len() == 0 {
        Map::empty()
    } else {
        entry_map(s.drop_last()).insert(s.last().suuid@, (s.last().uuid@, s.last().text@))
    }
}

pub open spec fn without_session(s: Seq<CacheEntry>, k: Seq<char>) -> Seq<CacheEntry>
    decreases s.len(),
{
    if s.len() == 0 {
        s
    } else if s.last().suuid@ == k {
        without_session(s.drop_last(), k)
    } else {
        without_session(s.drop_last(), k).push(s.last())
    }
}

proof fn lemma_without_session(s: Seq<CacheEntry>, k: Seq<char>)
    ensures
        entry_map(without_session(s, k)) == entry_map(s).remove(k),
    decreases s.len(),
{
    if s.len() > 0 {
        lemma_without_session(s.drop_last(), k);
        let w = without_session(s.drop_last(), k);
        if s.last().suuid@ != k {
            assert(w.push(s.last()).drop_last() == w);
            assert(entry_map(w.push(s.last())) == entry_map(w).insert(
                s.last().suuid@,
                (s.last().uuid@, s.last().text@),
            ));
        }
        assert(entry_map(without_session(s, k)) =~= entry_map(s).remove(k));
    } else {
        assert(entry_map(s).remove(k) =~= Map::<Seq<char>, (Seq<char>, Seq<char>)>::empty());
    }
}

/// The entry of session `k`, looked up from the newest entry back.
pub open spec fn find_session(s: Seq<CacheEntry>, k: Seq<char>) -> int
    decreases s.len(),
{
    if s.len() == 0 {
        -1
    } else if s.last().suuid@ == k {
        s.len() - 1
    } else {
        find_session(s.drop_last(), k)
    }
}

proof fn lemma_find_session(s: Seq<CacheEntry>, k: Seq<char>)
    ensures
        -1 <= find_session(s, k) < s.len(),
        find_session(s, k) >= 0 <==> entry_map(s).contains_key(k),
        find_session(s, k) >= 0 ==> s[find_session(s, k)].suuid@ == k && entry_map(s)[k] == (
        s[find_session(s, k)].uuid@, s[find_session(s, k)].text@),
        find_session(s, k) < 0 ==> forall|i: int| 0 <= i < s.len() ==> s[i].suuid@ != k,
    decreases s.len(),
{
    if s.len() > 0 {
        lemma_find_session(s.drop_last(), k);
        if s.last().suuid@ != k {
            let j = find_session(s, k);
            if j >= 0 {
                assert(s[j] == s.drop_last()[j]);
            } else {
                assert forall|i: int| 0 <= i < s.len() implies s[i].suuid@ != k by {
                    if i < s.len() - 1 {
                        assert(s[i] == s.drop_last()[i]);
                    }
                }
            }
        }
    }
}

impl View for ChatCache {
    type V = Map<Seq<char>, (Seq<char>, Seq<char>)>;

    closed spec fn view(&self) -> Map<Seq<char>, (Seq<char>, Seq<char>)> {
        entry_map(self.entries@)
    }
}

/// The cache after a piece of text arrives for chat item `uuid` of session `suuid`:
/// appended to what the session holds for that chat item, or in its place when the
/// session held text of another chat item.
pub open spec fn cache_after_update(
    m: Map<Seq<char>, (Seq<char>, Seq<char>)>,
    suuid: Seq<char>,
    uuid: Seq<char>,
    text: Seq<char>,
) -> Map<Seq<char>, (Seq<char>, Seq<char>)> {
    if m.contains_key(suuid) && m[suuid].0 == uuid {
        m.insert(suuid, (uuid, m[suuid].1 + text))
    } else {
        m.insert(suuid, (uuid, text))
    }
}

impl ChatCache {
    /// An empty cache.
    pub fn new() -> (r: ChatCache)
        ensures
            r@ == Map::<Seq<char>, (Seq<char>, Seq<char>)>::empty(),
    {
        ChatCache { entries: Vec::new() }
    }

    fn find(&self, suuid: &str) -> (r: Option<usize>)
        ensures
            r is Some <==> self@.contains_key(suuid@),
            r matches Some(i) ==> i < self.entries@.len() && self.entries@[i as int].suuid@ == suuid@
                && self@[suuid@] == (self.entries@[i as int].uuid@, self.entries@[i as int].text@),
    {
        proof {
            lemma_find_session(self.entries@, suuid@);
        }
        let mut i = self.entries.len();
        assert(self.entries@.take(i as int) == self.entries@);
        while i > 0
            invariant
                i <= self.entries.len(),
                find_session(self.entries@, suuid@) == find_session(self.entries@.take(i as int), suuid@),
            decreases i,
        {
            assert(self.entries@.take(i as int).drop_last() == self.entries@.take(i - 1));
            if str_eq(self.entries[i - 1].suuid.as_str(), suuid) {
                assert(find_session(self.entries@.take(i as int), suuid@) == i - 1);
                proof {
                    lemma_find_session(self.entries@, suuid@);
                }
                return Some(i - 1);
            }
            i = i - 1;
        }
        None
    }

    fn remove_session(&mut self, suuid: &str)
        ensures
            final(self)@ == old(self)@.remove(suuid@),
    {
        let mut v: Vec<CacheEntry> = Vec::new();
        std::mem::swap(&mut v, &mut self.entries);
        let ghost s = v@;
        let mut res: Vec<CacheEntry> = Vec::new();
        for x in it: v.into_iter()
            invariant
                it.seq() == s,
                res@ == without_session(s.take(it.index() as int), suuid@),
        {
            let ghost i = it.index();
            assert(s.take(i + 1).drop_last() == s.take(i as int));
            assert(s.take(i + 1).last() == x);
            if !str_eq(x.suuid.as_str(), suuid) {
                res.push(x);
            }
        }
        assert(s.take(s.len() as int) == s);
        proof {
            lemma_without_session(s, suuid@);
        }
        self.entries = res;
    }
}

/// Adds text received for chat item `uuid` of session `suuid`.
pub fn update_cache(cache: &mut ChatCache, suuid: String, uuid: String, text: String)
    ensures
        final(cache)@ == cache_after_update(old(cache)@, suuid@, uuid@, text@),
{
    let mut new_text = text;
    match cache.find(suuid.as_str()) {
        Some(i) => {
            if str_eq(cache.entries[i].uuid.as_str(), uuid.as_str()) {
                let mut joined = cache.entries[i].text.clone();
                joined.append(new_text.as_str());
                new_text = joined;
            }
        },
        None => {},
    }
    cache.remove_session(suuid.as_str());
    let ghost mid = cache.entries@;
    cache.entries.push(CacheEntry { suuid, uuid, text: new_text });
    assert(cache.entries@.drop_last() == mid);
}

/// Takes the text cached for session `suuid` out of the cache.
pub fn get_cache(cache: &mut ChatCache, suuid: &str) -> (r: Option<(String, String)>)
    ensures
        r is Some <==> old(cache)@.contains_key(suuid@),
        r matches Some(p) ==> (p.0@, p.1@) == old(cache)@[suuid@],
        final(cache)@ == old(cache)@.remove(suuid@),
{
    let found = cache.find(suuid);
    let r = match found {
        Some(i) => Some((cache.entries[i].uuid.clone(), cache.entries[i].text.clone())),
        None => None,
    };
    cache.remove_session(suuid);
    r
}

/// Pieces of text that arrive in turn for one chat item of a session gather in order.
pub proof fn law_cache_gathers_text(
    m: Map<Seq<char>, (Seq<char>, Seq<char>)>,
    suuid: Seq<char>,
    uuid: Seq<char>,
    a: Seq<char>,
    b: Seq<char>,
)
    ensures
        cache_after_update(cache_after_update(m, suuid, uuid, a), suuid, uuid, b)[suuid] == (
        if m.contains_key(suuid) && m[suuid].0 == uuid {
            (uuid, m[suuid].1 + a + b)
        } else {
            (uuid, a + b)
        }),
{
    if m.contains_key(suuid) && m[suuid].0 == uuid {
        assert(m[suuid].1 + a + b == m[suuid].1 + (a + b));
    }
}

/// Text of another chat item replaces what a session held; other sessions keep theirs.
pub proof fn law_cache_new_item_replaces(
    m: Map<Seq<char>, (Seq<char>, Seq<char>)>,
    suuid: Seq<char>,
    uuid: Seq<char>,
    text: Seq<char>,
    other: Seq<char>,
)
    requires
        m.contains_key(suuid) ==> m[suuid].0 != uuid,
        other != suuid,
    ensures
        cache_after_update(m, suuid, uuid, text)[suuid] == (uuid, text),
        cache_after_update(m, suuid, uuid, text).contains_key(other) == m.contains_key(other),
        m.contains_key(other) ==> cache_after_update(m, suuid, uuid, text)[other] == m[other],
{
}

/// A piece of a streamed reply.
#[derive(Clone, Debug)]
pub struct StreamTextItem {
    pub text: Option<String>,
    pub etext: Option<String>,
    pub suuid: String,
    pub uuid: String,
    pub finished: bool,
}

/// A question of a chat and its answer.
#[derive(Clone, Debug)]
pub struct HistoryChatItem {
    pub utext: String,
    pub btext: String,
    pub uuid: String,
}

/// The chat so far, sent along with a question.
#[derive(Clone, Debug)]
pub struct HistoryChat {
    pub items: Vec<HistoryChatItem>,
}

/// A question and its answer, as the chat view shows them.
#[derive(Clone, Debug)]
pub struct ChatItem {
    pub uuid: String,
    pub utext: String,
    pub btext: String,
    pub timestamp: String,
    pub etext: String,
    pub is_mark: bool,
    pub utext_items: Vec<CodeTextItem>,
    pub btext_items: Vec<CodeTextItem>,
}

/// What a `ChatItem` holds.
pub struct ChatItemView {
    pub uuid: Seq<char>,
    pub utext: Seq<char>,
    pub btext: Seq<char>,
    pub timestamp: Seq<char>,
    pub etext: Seq<char>,
    pub is_mark: bool,
    pub utext_items: Seq<CodeTextItem>,
    pub btext_items: Seq<CodeTextItem>,
}

impl View for ChatItem {
    type V = ChatItemView;

    open spec fn view(&self) -> ChatItemView {
        ChatItemView {
            uuid: self.uuid@,
            utext: self.utext@,
            btext: self.btext@,
            timestamp: self.timestamp@,
            etext: self.etext@,
            is_mark: self.is_mark,
            utext_items: self.utext_items@,
            btext_items: self.btext_items@,
        }
    }
}

pub open spec fn item_views(v: Seq<ChatItem>) -> Seq<ChatItemView> {
    v.map_values(|x: ChatItem| x@)
}

impl HistoryChat {
    /// The history of the chat items `items`.
    pub fn from(items: &Vec<ChatItem>) -> (r: HistoryChat)
        ensures
            r.items@.len() == items@.len(),
            forall|i: int|
                0 <= i < items@.len() ==> {
                    &&& (#[trigger] r.items@[i]).utext@ == items@[i].utext@
                    &&& r.items@[i].btext@ == items@[i].btext@
                    &&& r.items@[i].uuid@ == items@[i].uuid@
                },
    {
        let mut out: Vec<HistoryChatItem> = Vec::new();
        let mut i: usize = 0;
        while i < items.len()
            invariant
                i <= items.len(),
                out@.len() == i,
                forall|k: int|
                    0 <= k < i ==> {
                        &&& (#[trigger] out@[k]).utext@ == items@[k].utext@
                        &&& out@[k].btext@ == items@[k].btext@
                        &&& out@[k].uuid@ == items@[k].uuid@
                    },
            decreases items.len() - i,
        {
            let it = &items[i];
            out.push(
                HistoryChatItem {
                    utext: it.utext.clone(),
                    btext: it.btext.clone(),
                    uuid: it.uuid.clone(),
                },
            );
            i = i + 1;
        }
        HistoryChat { items: out }
    }
}

/// A string shaped like the hyphenated text of a random (version 4) UUID: 36
/// characters, hyphens at positions 8, 13, 18 and 23, lowercase hexadecimal digits
/// elsewhere, the version digit `4` at position 14 and one of `8`, `9`, `a`, `b` (the
/// standard variant) at position 19.
pub open spec fn is_uuid_text(s: Seq<char>) -> bool {
    &&& s.len() == 36
    &&& forall|i: int|
        0 <= i < 36 ==> if i == 8 || i == 13 || i == 18 || i == 23 {
            #[trigger] s[i] == '-'
        } else {
            ('0' <= s[i] <= '9') || ('a' <= s[i] <= 'f')
        }
    &&& s[14] == '4'
    &&& (s[19] == '8' || s[19] == '9' || s[19] == 'a' || s[19] == 'b')
}

/// A new random (version 4) UUID, in its hyphenated lowercase text form.
/// Calls `uuid::Uuid::new_v4`, which sets the version and variant bits, and formats
/// it with `Display`, which writes the hyphenated lowercase form; the other digits
/// are random, so no more is stated of them.
#[verifier::external_body]
pub(crate) fn new_uuid() -> (res: String)
    ensures
        is_uuid_text(res@),
{
    uuid::Uuid::new_v4().to_string()
}

/// A text shaped like a time written as `%Y-%m-%d %H:%M:%S`: a year of at least four
/// characters, then `-MM-DD HH:MM:SS` with two digits in each field.
pub open spec fn is_time_text(s: Seq<char>) -> bool {
    let n = s.len() as int;
    &&& n >= 19
    &&& forall|i: int|
        n - 15 <= i < n ==> if i == n - 15 || i == n - 12 {
            #[trigger] s[i] == '-'
        } else if i == n - 9 {
            s[i] == ' '
        } else if i == n - 6 || i == n - 3 {
            s[i] == ':'
        } else {
            '0' <= s[i] <= '9'
        }
}

/// The local time as `%Y-%m-%d %H:%M:%S`.
/// Calls `chrono::Local::now` and formats it. chrono writes the year with at least four
/// characters and each other field as two zero-padded digits; the time itself is read
/// from the machine, so no more is stated of the text.
#[verifier::external_body]
fn local_now() -> (res: String)
    ensures
        is_time_text(res@),
{
    chrono::Local::now().format("%Y-%m-%d %H:%M:%S").to_string()
}

/// Appends the question `value` to the chat, with the answer still loading, unless it
/// is blank. Returns whether it was appended.
pub fn push_question(datas: &mut Vec<ChatItem>, value: &str, uuid: String, timestamp: String) -> (pushed: bool)
    ensures
        pushed == (trim(value@).len() > 0),
        !pushed ==> final(datas)@ == old(datas)@,
        pushed ==> {
            let d = final(datas)@;
            let it = d.last();
            &&& d.len() == old(datas)@.len() + 1
            &&& d.drop_last() == old(datas)@
            &&& it.utext@ == value@
            &&& it.btext@ == loading()
            &&& it.uuid@ == uuid@
            &&& it.timestamp@ == timestamp@
            &&& it.etext@.len() == 0
            &&& !it.is_mark
            &&& blocks(it.utext_items@) == parse_spec(value@)
            &&& blocks(it.btext_items@) == parse_spec(loading())
        },
{
    if is_blank(value) {
        return false;
    }
    let item = ChatItem {
        uuid,
        utext: String::from_str(value),
        btext: String::from_str(LOADING_STRING),
        timestamp,
        etext: String::new(),
        is_mark: false,
        utext_items: parse_chat_text(value),
        btext_items: parse_chat_text(LOADING_STRING),
    };
    datas.push(item);
    assert(datas@.drop_last() == old(datas)@);
    true
}

/// Sends the question `value` in session `suuid`: appends it to the chat with a new
/// identifier and the local time, clears the session's stop mark, and returns the
/// history to send. A blank question does nothing and returns `None`.
pub fn send_input_text(datas: &mut Vec<ChatItem>, stops: &mut StopChats, suuid: &str, value: &str) -> (r: Option<HistoryChat>)
    ensures
        r is None <==> trim(value@).len() == 0,
        r is None ==> final(datas)@ == old(datas)@ && final(stops)@ == old(stops)@,
        r matches Some(h) ==> {
            let d = final(datas)@;
            &&& d.len() == old(datas)@.len() + 1
            &&& d.drop_last() == old(datas)@
            &&& d.last().utext@ == value@
            &&& d.last().btext@ == loading()
            &&& is_uuid_text(d.last().uuid@)
            &&& is_time_text(d.last().timestamp@)
            &&& d.last().etext@.len() == 0
            &&& !d.last().is_mark
            &&& blocks(d.last().utext_items@) == parse_spec(value@)
            &&& blocks(d.last().btext_items@) == parse_spec(loading())
            &&& final(stops)@ == old(stops)@.remove(suuid@)
            &&& h.items@.len() == d.len()
            &&& forall|i: int|
                0 <= i < d.len() ==> {
                    &&& (#[trigger] h.items@[i]).utext@ == d[i].utext@
                    &&& h.items@[i].btext@ == d[i].btext@
                    &&& h.items@[i].uuid@ == d[i].uuid@
                }
        },
{
    if is_blank(value) {
        return None;
    }
    let uuid = new_uuid();
    let timestamp = local_now();
    let pushed = push_question(datas, value, uuid, timestamp);
    assert(pushed);
    set_stop_chat(stops, String::from_str(suuid), false);
    Some(HistoryChat::from(datas))
}

/// Takes the last chat item out to send its question again; `None` when there is none.
pub fn retry_question(datas: &mut Vec<ChatItem>) -> (r: Option<String>)
    ensures
        old(datas)@.len() == 0 ==> r is None && final(datas)@ == old(datas)@,
        old(datas)@.len() > 0 ==> final(datas)@ == old(datas)@.drop_last() && (r matches Some(q)
            && q@ == old(datas)@.last().utext@),
{
    match datas.pop() {
        Some(item) => Some(item.utext),
        None => None,
    }
}

/// The chat items of `s` but those whose identifier is `uuid`.
pub open spec fn without_chat(s: Seq<ChatItem>, uuid: Seq<char>) -> Seq<ChatItem>
    decreases s.len(),
{
    if s.len() == 0 {
        s
    } else if s.last().uuid@ == uuid {
        without_chat(s.drop_last(), uuid)
    } else {
        without_chat(s.drop_last(), uuid).push(s.last())
    }
}

/// The chat items of `s`, with the mark of those whose identifier is `uuid` flipped.
pub open spec fn toggled_chat(s: Seq<ChatItem>, uuid: Seq<char>) -> Seq<ChatItem>
    decreases s.len(),
{
    if s.len() == 0 {
        s
    } else {
        let x = s.last();
        toggled_chat(s.drop_last(), uuid).push(
            if x.uuid@ == uuid {
                ChatItem { is_mark: !x.is_mark, ..x }
            } else {
                x
            },
        )
    }
}

/// Deletes the chat items whose identifier is `uuid`; a blank identifier deletes none.
pub fn delete_chat_item(datas: Vec<ChatItem>, uuid: &str) -> (res: Vec<ChatItem>)
    ensures
        res@ == (if trim(uuid@).len() == 0 {
            datas@
        } else {
            without_chat(datas@, uuid@)
        }),
{
    if is_blank(uuid) {
        return datas;
    }
    let ghost s = datas@;
    let mut res: Vec<ChatItem> = Vec::new();
    for x in it: datas.into_iter()
        invariant
            it.seq() == s,
            res@ == without_chat(s.take(it.index() as int), uuid@),
    {
        let ghost i = it.index();
        assert(s.take(i + 1).drop_last() == s.take(i as int));
        assert(s.take(i + 1).last() == x);
        if !str_eq(x.uuid.as_str(), uuid) {
            res.push(x);
        }
    }
    assert(s.take(s.len() as int) == s);
    res
}

/// Flips the mark of the chat items whose identifier is `uuid`; a blank identifier
/// flips none.
pub fn toggle_mark_chat_item(datas: Vec<ChatItem>, uuid: &str) -> (res: Vec<ChatItem>)
    ensures
        res@ == (if trim(uuid@).len() == 0 {
            datas@
        } else {
            toggled_chat(datas@, uuid@)
        }),
{
    if is_blank(uuid) {
        return datas;
    }
    let ghost s = datas@;
    let mut res: Vec<ChatItem> = Vec::new();
    for x in it: datas.into_iter()
        invariant
            it.seq() == s,
            res@ == toggled_chat(s.take(it.index() as int), uuid@),
    {
        let ghost i = it.index();
        assert(s.take(i + 1).drop_last() == s.take(i as int));
        assert(s.take(i + 1).last() == x);
        let mut y = x;
        if str_eq(y.uuid.as_str(), uuid) {
            y.is_mark = !y.is_mark;
        }
        res.push(y);
    }
    assert(s.take(s.len() as int) == s);
    res
}

/// Removes the first chat item, if any.
pub fn remove_current_chats_first(datas: &mut Vec<ChatItem>)
    ensures
        final(datas)@ == (if old(datas)@.len() > 0 {
            old(datas)@.drop_first()
        } else {
            old(datas)@
        }),
{
    if datas.len() > 0 {
        datas.remove(0);
        assert(datas@ == old(datas)@.drop_first());
    }
}

/// Removes the last chat item, if any.
pub fn remove_current_chats_last(datas: &mut Vec<ChatItem>)
    ensures
        final(datas)@ == (if old(datas)@.len() > 0 {
            old(datas)@.drop_last()
        } else {
            old(datas)@
        }),
{
    if datas.len() > 0 {
        let n = datas.len();
        datas.remove(n - 1);
        assert(datas@ == old(datas)@.drop_last());
    }
}

/// The answer after `text` streams in: the text without its leading whitespace when
/// the answer was still loading, else the answer followed by the text.
pub open spec fn streamed_btext(btext: Seq<char>, text: Seq<char>) -> Seq<char> {
    if btext == loading() {
        trim_start(text)
    } else {
        btext + text
    }
}

/// The answer of chat item `item` after `text` streams in, with its blocks.
pub fn append_answer(item: &mut ChatItem, text: &str)
    ensures
        final(item).btext@ == streamed_btext(old(item).btext@, text@),
        blocks(final(item).btext_items@) == parse_spec(final(item).btext@),
        final(item).uuid == old(item).uuid,
        final(item).utext == old(item).utext,
        final(item).timestamp == old(item).timestamp,
        final(item).etext == old(item).etext,
        final(item).is_mark == old(item).is_mark,
        final(item).utext_items == old(item).utext_items,
{
    if str_eq(item.btext.as_str(), LOADING_STRING) {
        item.btext = trimmed_start(text);
    } else {
        item.btext.append(text);
    }
    item.btext_items = parse_chat_text(item.btext.as_str());
}

/// What a piece of a streamed reply did.
#[derive(Debug)]
pub enum StreamOutcome {
    /// The reply is complete: the view is to be redrawn.
    Redraw,
    /// The reply failed with this message.
    ShowError(String),
    /// Nothing to do.
    Ignored,
    /// The session is not on screen: the text went to the cache.
    Cached,
    /// The session has no chat item any more: its reply is stopped.
    Stopped,
    /// The answer of the last chat item grew.
    Updated,
}

/// Takes in a piece of a streamed reply for the chat of session `current_suuid`,
/// whose items are `datas`.
pub fn stream_text(
    datas: &mut Vec<ChatItem>,
    current_suuid: &str,
    cache: &mut ChatCache,
    stops: &mut StopChats,
    sitem: StreamTextItem,
) -> (r: StreamOutcome)
    ensures
        sitem.finished ==> r is Redraw,
        !sitem.finished && sitem.etext is Some ==> (r matches StreamOutcome::ShowError(e) && e@
            == sitem.etext->0@),
        !sitem.finished && sitem.etext is None && sitem.text is None ==> r is Ignored,
        r is Cached <==> !sitem.finished && sitem.etext is None && sitem.text is Some
            && current_suuid@ != sitem.suuid@,
        r is Cached ==> final(cache)@ == cache_after_update(
            old(cache)@,
            sitem.suuid@,
            sitem.uuid@,
            sitem.text->0@,
        ),
        !(r is Cached) ==> final(cache)@ == old(cache)@,
        r is Stopped <==> !sitem.finished && sitem.etext is None && sitem.text is Some
            && current_suuid@ == sitem.suuid@ && old(datas)@.len() == 0,
        r is Stopped ==> final(stops)@ == old(stops)@.insert(current_suuid@),
        !(r is Stopped) ==> final(stops)@ == old(stops)@,
        r is Updated <==> !sitem.finished && sitem.etext is None && sitem.text is Some
            && current_suuid@ == sitem.suuid@ && old(datas)@.len() > 0
            && old(datas)@.last().uuid@ == sitem.uuid@,
        !sitem.finished && sitem.etext is None && sitem.text is Some && current_suuid@
            == sitem.suuid@ && old(datas)@.len() > 0 && old(datas)@.last().uuid@ != sitem.uuid@
            ==> r is Ignored,
        !(r is Updated) ==> final(datas)@ == old(datas)@,
        r is Updated ==> {
            let d = final(datas)@;
            let o = old(datas)@.last();
            &&& d.len() == old(datas)@.len()
            &&& d.drop_last() == old(datas)@.drop_last()
            &&& d.last().btext@ == streamed_btext(o.btext@, sitem.text->0@)
            &&& blocks(d.last().btext_items@) == parse_spec(d.last().btext@)
            &&& d.last().uuid == o.uuid && d.last().utext == o.utext
            &&& d.last().timestamp == o.timestamp && d.last().etext == o.etext
            &&& d.last().is_mark == o.is_mark && d.last().utext_items == o.utext_items
        },
{
    if sitem.finished {
        return StreamOutcome::Redraw;
    }
    let text = match sitem.etext {
        Some(etext) => {
            return StreamOutcome::ShowError(etext);
        },
        None => match sitem.text {
            Some(txt) => txt,
            None => {
                return StreamOutcome::Ignored;
            },
        },
    };
    if !str_eq(current_suuid, sitem.suuid.as_str()) {
        update_cache(cache, sitem.suuid, sitem.uuid, text);
        return StreamOutcome::Cached;
    }
    if datas.len() == 0 {
        set_stop_chat(stops, String::from_str(current_suuid), true);
        return StreamOutcome::Stopped;
    }
    let n = datas.len();
    if !str_eq(sitem.uuid.as_str(), datas[n - 1].uuid.as_str()) {
        return StreamOutcome::Ignored;
    }
    let mut item = datas.pop().unwrap();
    append_answer(&mut item, text.as_str());
    datas.push(item);
    StreamOutcome::Updated
}

/// A copy of the blocks `v`.
pub fn copy_blocks(v: &Vec<CodeTextItem>) -> (res: Vec<CodeTextItem>)
    ensures
        res@ == v@,
{
    let mut res: Vec<CodeTextItem> = Vec::new();
    let mut i: usize = 0;
    while i < v.len()
        invariant
            i <= v.len(),
            res@ == v@.take(i as int),
        decreases v.len() - i,
    {
        let b = CodeTextItem { text_type: v[i].text_type.clone(), text: v[i].text.clone() };
        assert(b == v@[i as int]);
        res.push(b);
        assert(v@.take(i + 1) == v@.take(i as int).push(v@[i as int]));
        i = i + 1;
    }
    assert(v@.take(v.len() as int) == v@);
    res
}

/// A copy of the chat item `x`.
pub fn copy_chat_item(x: &ChatItem) -> (res: ChatItem)
    ensures
        res@ == x@,
{
    ChatItem {
        uuid: x.uuid.clone(),
        utext: x.utext.clone(),
        btext: x.btext.clone(),
        timestamp: x.timestamp.clone(),
        etext: x.etext.clone(),
        is_mark: x.is_mark,
        utext_items: copy_blocks(&x.utext_items),
        btext_items: copy_blocks(&x.btext_items),
    }
}

/// A copy of the chat items `v`.
pub fn copy_chat_items(v: &Vec<ChatItem>) -> (res: Vec<ChatItem>)
    ensures
        item_views(res@) == item_views(v@),
{
    let mut res: Vec<ChatItem> = Vec::new();
    let mut i: usize = 0;
    while i < v.len()
        invariant
            i <= v.len(),
            item_views(res@) == item_views(v@.take(i as int)),
        decreases v.len() - i,
    {
        let ghost before = res@;
        let c = copy_chat_item(&v[i]);
        res.push(c);
        assert(item_views(res@) == item_views(before).push(c@));
        assert(v@.take(i + 1) == v@.take(i as int).push(v@[i as int]));
        assert(item_views(v@.take(i + 1)) == item_views(v@.take(i as int)).push(v@[i as int]@));
        i = i + 1;
    }
    assert(v@.take(v.len() as int) == v@);
    res
}

/// Stopping a session's reply marks that session and no other; clearing the mark
/// clears it for that session only.
pub proof fn law_stop_marks_one_session(m: Set<Seq<char>>, s: Seq<char>, t: Seq<char>)
    requires
        t != s,
    ensures
        m.insert(s).contains(s),
        !m.remove(s).contains(s),
        m.insert(s).contains(t) == m.contains(t),
        m.remove(s).contains(t) == m.contains(t),
{
}

/// Cached text is taken out once: after it is taken, the session has none left.
pub proof fn law_cache_taken_once(m: Map<Seq<char>, (Seq<char>, Seq<char>)>, s: Seq<char>)
    ensures
        !m.remove(s).contains_key(s),
        m.remove(s).remove(s) == m.remove(s),
{
    assert(m.remove(s).remove(s) =~= m.remove(s));
}

/// Flipping the mark of chat items keeps the length; the items of the identifier have
/// their mark flipped and nothing else changed, and every other item stays as it was.
pub proof fn law_toggle_chat_once(s: Seq<ChatItem>, uuid: Seq<char>)
    ensures
        toggled_chat(s, uuid).len() == s.len(),
        forall|i: int|
            0 <= i < s.len() ==> (#[trigger] toggled_chat(s, uuid)[i]) == (if s[i].uuid@ == uuid {
                ChatItem { is_mark: !s[i].is_mark, ..s[i] }
            } else {
                s[i]
            }),
    decreases s.len(),
{
    if s.len() > 0 {
        law_toggle_chat_once(s.drop_last(), uuid);
        assert forall|i: int| 0 <= i < s.len() implies (#[trigger] toggled_chat(s, uuid)[i]) == (
        if s[i].uuid@ == uuid {
            ChatItem { is_mark: !s[i].is_mark, ..s[i] }
        } else {
            s[i]
        }) by {
            if i < s.len() - 1 {
                assert(s.drop_last()[i] == s[i]);
                assert(toggled_chat(s, uuid)[i] == toggled_chat(s.drop_last(), uuid)[i]);
            }
        }
    }
}

/// Flipping the mark of the same chat items twice leaves the chat as it was.
pub proof fn law_toggle_chat_twice(s: Seq<ChatItem>, uuid: Seq<char>)
    ensures
        toggled_chat(toggled_chat(s, uuid), uuid) == s,
    decreases s.len(),
{
    if s.len() > 0 {
        law_toggle_chat_twice(s.drop_last(), uuid);
        let t = toggled_chat(s, uuid);
        assert(t.drop_last() == toggled_chat(s.drop_last(), uuid));
        assert(toggled_chat(t, uuid) == toggled_chat(t.drop_last(), uuid).push(
            if t.last().uuid@ == uuid {
                ChatItem { is_mark: !t.last().is_mark, ..t.last() }
            } else {
                t.last()
            },
        ));
        assert(s == s.drop_last().push(s.last()));
    }
}

/// Deleting chat items removes those of the identifier and keeps every other one, in
/// order.
pub proof fn law_delete_chat_item(s: Seq<ChatItem>, uuid: Seq<char>)
    ensures
        forall|i: int|
            0 <= i < without_chat(s, uuid).len() ==> (#[trigger] without_chat(s, uuid)[i]).uuid@
                != uuid,
        forall|i: int|
            0 <= i < s.len() && s[i].uuid@ != uuid ==> without_chat(s, uuid).contains(
                #[trigger] s[i],
            ),
    decreases s.len(),
{
    if s.len() > 0 {
        law_delete_chat_item(s.drop_last(), uuid);
        let w = without_chat(s.drop_last(), uuid);
        let r = without_chat(s, uuid);
        assert forall|i: int| 0 <= i < r.len() implies (#[trigger] r[i]).uuid@ != uuid by {
            if i < w.len() {
                assert(r[i] == w[i]);
            }
        }
        assert forall|i: int| 0 <= i < s.len() && s[i].uuid@ != uuid implies r.contains(
            #[trigger] s[i],
        ) by {
            if i < s.len() - 1 {
                assert(s[i] == s.drop_last()[i]);
                assert(w.contains(s[i]));
                let j = choose|j: int| 0 <= j < w.len() && w[j] == s[i];
                if s.last().uuid@ != uuid {
                    assert(r[j] == w[j]);
                }
            } else {
                assert(r[r.len() - 1] == s.last());
            }
        }
    }
}

/// After the first piece of a reply has replaced the loading text, each further piece
/// is appended to the answer.
pub proof fn law_stream_gathers(a: Seq<char>, b: Seq<char>)
    requires
        trim_start(a) != loading(),
    ensures
        streamed_btext(streamed_btext(loading(), a), b) == trim_start(a) + b,
{
}

} // verus!
