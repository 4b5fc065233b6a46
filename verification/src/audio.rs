//! Speech: shaping a chat text into the SSML that the Azure speech service reads
//! aloud, the service's addresses, the choice of what to play, and the recording flag.
use vstd::prelude::*;
use crate::text::{
    char_is_ascii, chars_to_string, concat_str, is_ascii_char, is_blank, skip_back_idx,
    skip_front_idx, str_chars, str_eq, strip_both, trim, CharClass, lemma_strip_both_idem,
};

verus! {

/// The language of a stretch of text: ASCII is read as English, the rest as Chinese.
#[derive(Debug, PartialEq, Eq, Clone, Copy, Structural)]
pub enum TextType {
    EnUs,
    ZhCn,
}

/// A stretch of text in one language, ready to be read aloud.
#[derive(Debug, Clone)]
pub struct AzureTextItem {
    pub text_type: TextType,
    pub text: String,
}

/// The reply of the speech-to-text service.
#[derive(Default, Debug, Clone)]
pub struct Speech2Text {
    pub recognition_status: String,
    pub offset: u64,
    pub duration: u64,
    pub display_text: String,
}

/// What an `AzureTextItem` holds.
pub struct SpokenItem {
    pub kind: TextType,
    pub text: Seq<char>,
}

impl View for AzureTextItem {
    type V = SpokenItem;

    open spec fn view(&self) -> SpokenItem {
        SpokenItem { kind: self.text_type, text: self.text@ }
    }
}

pub open spec fn spoken(v: Seq<AzureTextItem>) -> Seq<SpokenItem> {
    v.map_values(|x: AzureTextItem| x@)
}

pub open spec fn char_type(c: char) -> TextType {
    if is_ascii_char(c) {
        TextType::EnUs
    } else {
        TextType::ZhCn
    }
}

/// A maximal stretch of characters of one type.
pub struct TextRun {
    pub kind: TextType,
    pub text: Seq<char>,
}

/// The runs of `rs` after one more character.
pub open spec fn add_char(rs: Seq<TextRun>, c: char) -> Seq<TextRun> {
    if rs.len() > 0 && rs.last().kind == char_type(c) {
        rs.drop_last().push(TextRun { kind: rs.last().kind, text: rs.last().text.push(c) })
    } else {
        rs.push(TextRun { kind: char_type(c), text: seq![c] })
    }
}

/// `s` cut into runs of English and Chinese text.
pub open spec fn text_runs(s: Seq<char>) -> Seq<TextRun>
    decreases s.len(),
{
    if s.len() == 0 {
        Seq::empty()
    } else {
        add_char(text_runs(s.drop_last()), s.last())
    }
}

/// The full stop that ends a sentence in each language.
pub open spec fn full_stop(k: TextType) -> Seq<char> {
    match k {
        TextType::EnUs => seq!['.'],
        TextType::ZhCn => seq!['\u{3002}'],
    }
}

/// The items read aloud for the runs `rs`: each run loses the punctuation, control
/// characters and whitespace at its ends, runs with nothing left are dropped, and
/// each remaining one gets the full stop of its language.
pub open spec fn speak_items(rs: Seq<TextRun>) -> Seq<SpokenItem>
    decreases rs.len(),
{
    if rs.len() == 0 {
        Seq::empty()
    } else {
        let r = rs.last();
        let core = strip_both(r.text, CharClass::Filler);
        let prev = speak_items(rs.drop_last());
        if core.len() > 0 {
            prev.push(SpokenItem { kind: r.kind, text: core + full_stop(r.kind) })
        } else {
            prev
        }
    }
}

pub open spec fn split_text_spec(s: Seq<char>) -> Seq<SpokenItem> {
    speak_items(text_runs(s))
}

pub open spec fn lang_open(k: TextType) -> Seq<char> {
    match k {
        TextType::EnUs => "<lang xml:lang='en-US'> "@,
        TextType::ZhCn => "<lang xml:lang='zh-CN'> "@,
    }
}

pub open spec fn lang_close() -> Seq<char> {
    " </lang>"@
}

pub open spec fn wrap_items(items: Seq<SpokenItem>) -> Seq<char>
    decreases items.len(),
{
    if items.len() == 0 {
        Seq::empty()
    } else {
        wrap_items(items.drop_last()) + lang_open(items.last().kind) + items.last().text
            + lang_close()
    }
}

pub open spec fn make_text_spec(s: Seq<char>) -> Seq<char> {
    wrap_items(split_text_spec(s))
}

/// The characters of the runs `rs`, in order.
pub open spec fn run_text(rs: Seq<TextRun>) -> Seq<char>
    decreases rs.len(),
{
    if rs.len() == 0 {
        Seq::empty()
    } else {
        run_text(rs.drop_last()) + rs.last().text
    }
}

/// Runs are non-empty, hold characters of their own type only, and two neighbours
/// differ in type.
pub open spec fn runs_well_formed(rs: Seq<TextRun>) -> bool {
    &&& forall|i: int| 0 <= i < rs.len() ==> (#[trigger] rs[i]).text.len() > 0
    &&& forall|i: int, k: int|
        0 <= i < rs.len() && 0 <= k < rs[i].text.len() ==> char_type(#[trigger] rs[i].text[k])
            == rs[i].kind
    &&& forall|i: int, j: int|
        0 <= i && j == i + 1 && j < rs.len() ==> (#[trigger] rs[i]).kind != (#[trigger] rs[j]).kind
}

proof fn lemma_add_char(rs: Seq<TextRun>, c: char)
    requires
        runs_well_formed(rs),
    ensures
        runs_well_formed(add_char(rs, c)),
        run_text(add_char(rs, c)) == run_text(rs).push(c),
{
    let out = add_char(rs, c);
    if rs.len() > 0 && rs.last().kind == char_type(c) {
        let last = rs.len() - 1;
        assert(out.drop_last() == rs.drop_last());
        assert forall|i: int, k: int|
            0 <= i < out.len() && 0 <= k < out[i].text.len() implies char_type(
                #[trigger] out[i].text[k],
            ) == out[i].kind by {
            if i < last {
                assert(out[i] == rs[i]);
            } else if k < rs[last].text.len() {
                assert(out[i].text[k] == rs[last].text[k]);
            }
        }
        assert forall|i: int, j: int|
            0 <= i && j == i + 1 && j < out.len() implies (#[trigger] out[i]).kind != (
            #[trigger] out[j]).kind by {
            assert(rs[i].kind != rs[j].kind);
        }
        assert(run_text(out) == run_text(rs.drop_last()) + rs.last().text.push(c));
        assert(run_text(rs.drop_last()) + rs.last().text.push(c) == (run_text(rs.drop_last())
            + rs.last().text).push(c));
    } else {
        assert(out.drop_last() == rs);
        assert forall|i: int, k: int|
            0 <= i < out.len() && 0 <= k < out[i].text.len() implies char_type(
                #[trigger] out[i].text[k],
            ) == out[i].kind by {
            if i < rs.len() {
                assert(out[i] == rs[i]);
            }
        }
        assert forall|i: int, j: int|
            0 <= i && j == i + 1 && j < out.len() implies (#[trigger] out[i]).kind != (
            #[trigger] out[j]).kind by {
            if j < rs.len() {
                assert(rs[i].kind != rs[j].kind);
            } else {
                assert(out[i] == rs.last());
            }
        }
        assert(run_text(out) == run_text(rs) + seq![c]);
        assert(run_text(rs) + seq![c] == run_text(rs).push(c));
    }
}

/// The runs of a text cover it exactly, in order; each is non-empty, holds characters
/// of one type only, and differs in type from its neighbours.
pub proof fn law_runs_partition_text(s: Seq<char>)
    ensures
        runs_well_formed(text_runs(s)),
        run_text(text_runs(s)) == s,
    decreases s.len(),
{
    if s.len() == 0 {
        assert(run_text(text_runs(s)) =~= s);
    } else {
        law_runs_partition_text(s.drop_last());
        lemma_add_char(text_runs(s.drop_last()), s.last());
        assert(s.drop_last().push(s.last()) == s);
    }
}

/// Each item read aloud is a non-empty text with nothing left to strip at its ends,
/// followed by the full stop of its language.
pub proof fn law_spoken_items_shape(rs: Seq<TextRun>)
    ensures
        forall|i: int|
            0 <= i < speak_items(rs).len() ==> {
                let it = #[trigger] speak_items(rs)[i];
                let core = it.text.take(it.text.len() - 1);
                &&& it.text.len() >= 2
                &&& it.text.last() == full_stop(it.kind)[0]
                &&& strip_both(core, CharClass::Filler) == core
            },
    decreases rs.len(),
{
    if rs.len() > 0 {
        law_spoken_items_shape(rs.drop_last());
        let r = rs.last();
        let core = strip_both(r.text, CharClass::Filler);
        lemma_strip_both_idem(r.text, CharClass::Filler);
        let prev = speak_items(rs.drop_last());
        let out = speak_items(rs);
        if core.len() > 0 {
            let t = core + full_stop(r.kind);
            assert(t.take(t.len() - 1) == core);
            assert forall|i: int| 0 <= i < out.len() implies {
                let it = #[trigger] out[i];
                let c = it.text.take(it.text.len() - 1);
                &&& it.text.len() >= 2
                &&& it.text.last() == full_stop(it.kind)[0]
                &&& strip_both(c, CharClass::Filler) == c
            } by {
                if i < prev.len() {
                    assert(out[i] == prev[i]);
                }
            }
        }
    }
}

/// Every item of `split_text` has that shape.
pub proof fn law_split_text_items(s: Seq<char>)
    ensures
        forall|i: int|
            0 <= i < split_text_spec(s).len() ==> {
                let it = #[trigger] split_text_spec(s)[i];
                let core = it.text.take(it.text.len() - 1);
                &&& it.text.len() >= 2
                &&& it.text.last() == full_stop(it.kind)[0]
                &&& strip_both(core, CharClass::Filler) == core
            },
{
    law_spoken_items_shape(text_runs(s));
}

proof fn lemma_one_kind_runs(s: Seq<char>, ascii: bool)
    requires
        s.len() > 0,
        forall|i: int| 0 <= i < s.len() ==> (((#[trigger] s[i]) as u32) < 128) == ascii,
    ensures
        text_runs(s) == seq![
            TextRun { kind: if ascii { TextType::EnUs } else { TextType::ZhCn }, text: s },
        ],
    decreases s.len(),
{
    let k = if ascii { TextType::EnUs } else { TextType::ZhCn };
    let c = s[s.len() - 1];
    assert(c == s.last());
    assert(char_type(c) == k);
    if s.len() == 1 {
        assert(s.drop_last() =~= Seq::<char>::empty());
        assert(text_runs(s.drop_last()) == Seq::<TextRun>::empty());
        assert(seq![c] =~= s);
        assert(text_runs(s) == add_char(Seq::<TextRun>::empty(), c));
    } else {
        assert forall|i: int| 0 <= i < s.drop_last().len() implies (((#[trigger] s.drop_last()[i])
            as u32) < 128) == ascii by {
            assert(s.drop_last()[i] == s[i]);
        }
        lemma_one_kind_runs(s.drop_last(), ascii);
        let rs = text_runs(s.drop_last());
        assert(rs.len() > 0 && rs.last().kind == char_type(c));
        assert(rs.drop_last() =~= Seq::<TextRun>::empty());
        assert(s.drop_last().push(c) =~= s);
        assert(text_runs(s) == add_char(rs, c));
        assert(add_char(rs, c) =~= seq![TextRun { kind: k, text: s }]);
    }
}

/// Each run of a text is English exactly when its characters are ASCII
/// (`char::is_ascii`): every character of an English run is ASCII, and every character
/// of a Chinese run is not.
pub proof fn law_run_kind_is_ascii(s: Seq<char>)
    ensures
        forall|i: int, k: int|
            0 <= i < text_runs(s).len() && 0 <= k < text_runs(s)[i].text.len() ==> (
            text_runs(s)[i].kind == TextType::EnUs <==> ((#[trigger] text_runs(s)[i].text[k])
                as u32) < 128),
{
    law_runs_partition_text(s);
}

/// A text made only of ASCII characters is read as one English stretch: when anything
/// is left of it once the punctuation, control characters and whitespace at its ends
/// are stripped, it yields exactly one item, English, that text followed by `.`; a text
/// with no ASCII character likewise yields one Chinese item followed by `。`.
pub proof fn law_one_language_text_is_one_item(s: Seq<char>, ascii: bool)
    requires
        forall|i: int| 0 <= i < s.len() ==> (((#[trigger] s[i]) as u32) < 128) == ascii,
        strip_both(s, CharClass::Filler).len() > 0,
    ensures
        split_text_spec(s) == seq![
            SpokenItem {
                kind: if ascii { TextType::EnUs } else { TextType::ZhCn },
                text: strip_both(s, CharClass::Filler) + (if ascii {
                    seq!['.']
                } else {
                    seq!['\u{3002}']
                }),
            },
        ],
{
    crate::text::lemma_skip_front_len(s, CharClass::Filler);
    crate::text::lemma_skip_back_len(crate::text::skip_front(s, CharClass::Filler), CharClass::Filler);
    lemma_one_kind_runs(s, ascii);
    let rs = text_runs(s);
    let k = if ascii { TextType::EnUs } else { TextType::ZhCn };
    assert(rs.drop_last() =~= Seq::<TextRun>::empty());
    assert(speak_items(rs.drop_last()) == Seq::<SpokenItem>::empty());
    assert(rs.last() == TextRun { kind: k, text: s });
    assert(speak_items(rs) =~= seq![
        SpokenItem { kind: k, text: strip_both(s, CharClass::Filler) + full_stop(k) },
    ]);
}

fn text_type_of(c: char) -> (t: TextType)
    ensures
        t == char_type(c),
{
    if char_is_ascii(c) {
        TextType::EnUs
    } else {
        TextType::ZhCn
    }
}

struct Run {
    kind: TextType,
    text: Vec<char>,
}

spec fn run_views(v: Seq<Run>) -> Seq<TextRun> {
    v.map_values(|r: Run| TextRun { kind: r.kind, text: r.text@ })
}

/// Cuts `text` into runs of ASCII and non-ASCII characters; strips each run of the
/// punctuation, control characters and whitespace at its ends; drops the runs that
/// are left empty; and ends each remaining run with `.` (English) or `。` (Chinese).
pub fn split_text(text: &str) -> (res: Vec<AzureTextItem>)
    ensures
        spoken(res@) == split_text_spec(text@),
{
    let chars = str_chars(text);
    let mut done: Vec<Run> = Vec::new();
    let mut cur_kind = TextType::EnUs;
    let mut cur_text: Vec<char> = Vec::new();
    let mut i: usize = 0;
    while i < chars.len()
        invariant
            i <= chars.len(),
            i == 0 ==> done@.len() == 0,
            i > 0 ==> run_views(done@).push(TextRun { kind: cur_kind, text: cur_text@ })
                == text_runs(chars@.take(i as int)),
        decreases chars.len() - i,
    {
        let c = chars[i];
        let t = text_type_of(c);
        let ghost pre = chars@.take(i as int);
        assert(chars@.take(i + 1).drop_last() == pre);
        assert(chars@.take(i + 1).last() == c);
        assert(text_runs(chars@.take(i + 1)) == add_char(text_runs(pre), c));
        if i == 0 {
            assert(pre.len() == 0);
            assert(text_runs(pre) =~= Seq::<TextRun>::empty());
            assert(run_views(done@) =~= Seq::<TextRun>::empty());
            cur_kind = t;
            cur_text = vec![c];
            assert(cur_text@ =~= seq![c]);
            assert(run_views(done@).push(TextRun { kind: cur_kind, text: cur_text@ }) =~= add_char(
                text_runs(pre),
                c,
            ));
        } else if t == cur_kind {
            cur_text.push(c);
            assert(run_views(done@).push(TextRun { kind: cur_kind, text: cur_text@ }) =~= add_char(
                text_runs(pre),
                c,
            ));
        } else {
            let ghost old_done = done@;
            let run = Run { kind: cur_kind, text: cur_text };
            done.push(run);
            assert(run_views(done@) == run_views(old_done).push(
                TextRun { kind: run.kind, text: run.text@ },
            ));
            cur_kind = t;
            cur_text = vec![c];
            assert(cur_text@ =~= seq![c]);
            assert(run_views(done@).push(TextRun { kind: cur_kind, text: cur_text@ }) =~= add_char(
                text_runs(pre),
                c,
            ));
        }
        i = i + 1;
    }
    assert(chars@.take(chars.len() as int) == chars@);
    if i > 0 {
        let ghost old_done = done@;
        let run = Run { kind: cur_kind, text: cur_text };
        done.push(run);
        assert(run_views(done@) == run_views(old_done).push(TextRun { kind: run.kind, text: run.text@ }));
    } else {
        assert(run_views(done@) =~= Seq::<TextRun>::empty());
    }
    let ghost runs = run_views(done@);
    assert(runs == text_runs(text@));
    let mut res: Vec<AzureTextItem> = Vec::new();
    let mut j: usize = 0;
    while j < done.len()
        invariant
            j <= done.len(),
            runs == run_views(done@),
            spoken(res@) == speak_items(runs.take(j as int)),
        decreases done.len() - j,
    {
        let r = &done[j];
        let n = r.text.len();
        assert(r.text@.subrange(0, n as int) == r.text@);
        let lo = skip_front_idx(&r.text, 0, n, CharClass::Filler);
        let hi = skip_back_idx(&r.text, lo, n, CharClass::Filler);
        assert(runs.take(j + 1).drop_last() == runs.take(j as int));
        assert(runs.take(j + 1).last() == runs[j as int]);
        if lo < hi {
            let mut s = chars_to_string(&r.text, lo, hi);
            match r.kind {
                TextType::EnUs => s.append("."),
                TextType::ZhCn => s.append("\u{3002}"),
            }
            proof {
                reveal_strlit(".");
                reveal_strlit("\u{3002}");
                assert(s@ == strip_both(r.text@, CharClass::Filler) + full_stop(r.kind));
            }
            let item = AzureTextItem { text_type: r.kind, text: s };
            let ghost before = res@;
            res.push(item);
            assert(spoken(res@) == spoken(before).push(item@));
        }
        j = j + 1;
    }
    assert(runs.take(done.len() as int) == runs);
    res
}

/// The SSML of `text`: each item of `split_text` in a `<lang>` element of its
/// language.
pub fn make_text(text: &str) -> (res: String)
    ensures
        res@ == make_text_spec(text@),
{
    let items = split_text(text);
    let ghost its = spoken(items@);
    let mut otext = String::new();
    let mut i: usize = 0;
    assert(otext@ =~= wrap_items(its.take(0)));
    while i < items.len()
        invariant
            i <= items.len(),
            its == spoken(items@),
            otext@ == wrap_items(its.take(i as int)),
        decreases items.len() - i,
    {
        let item = &items[i];
        match item.text_type {
            TextType::EnUs => otext.append("<lang xml:lang='en-US'> "),
            TextType::ZhCn => otext.append("<lang xml:lang='zh-CN'> "),
        }
        otext.append(item.text.as_str());
        otext.append(" </lang>");
        assert(its.take(i + 1).drop_last() == its.take(i as int));
        assert(its.take(i + 1).last() == item@);
        i = i + 1;
    }
    assert(its.take(items.len() as int) == its);
    otext
}

pub open spec fn tts_url_spec(region: Seq<char>) -> Seq<char> {
    "https://"@ + region + ".tts.speech.microsoft.com/cognitiveservices/v1"@
}

/// The address of the text-to-speech service of `region`.
pub fn tts_url(region: &str) -> (res: String)
    ensures
        res@ == tts_url_spec(region@),
{
    let mut res = String::from_str("https://");
    res.append(region);
    res.append(".tts.speech.microsoft.com/cognitiveservices/v1");
    res
}

pub open spec fn recognition_language(language: Seq<char>) -> Seq<char> {
    if language == "en"@ {
        "en-US"@
    } else {
        "zh-CN"@
    }
}

pub open spec fn stt_url_spec(region: Seq<char>, language: Seq<char>) -> Seq<char> {
    "https://"@ + region
        + ".stt.speech.microsoft.com/speech/recognition/conversation/cognitiveservices/v1?language="@
        + recognition_language(language) + "&format=simple"@
}

/// The address of the speech-to-text service of `region`: `en` is recognised as
/// American English, any other language as Chinese.
pub fn stt_url(region: &str, language: &str) -> (res: String)
    ensures
        res@ == stt_url_spec(region@, language@),
{
    let mut res = String::from_str("https://");
    res.append(region);
    res.append(".stt.speech.microsoft.com/speech/recognition/conversation/cognitiveservices/v1?language=");
    if str_eq(language, "en") {
        res.append("en-US");
    } else {
        res.append("zh-CN");
    }
    res.append("&format=simple");
    res
}

pub open spec fn ssml_open() -> Seq<char> {
    "<speak version='1.0' xml:lang='en-US'>\n            <voice name='en-US-JennyMultilingualNeural'>\n                "@
}

pub open spec fn ssml_close() -> Seq<char> {
    "\n            </voice>\n        </speak>"@
}

/// The request body that asks for `ssml` to be read by the multilingual voice.
pub fn tts_body(ssml: &str) -> (res: String)
    ensures
        res@ == ssml_open() + ssml@ + ssml_close(),
{
    let mut res = String::from_str(
        "<speak version='1.0' xml:lang='en-US'>\n            <voice name='en-US-JennyMultilingualNeural'>\n                ",
    );
    res.append(ssml);
    res.append("\n            </voice>\n        </speak>");
    res
}

/// The cached audio file of a chat item: `file` in `audio_dir`, or nothing when no
/// file is named.
pub fn audio_file_path(audio_dir: &str, file: &str) -> (res: String)
    ensures
        file@.len() == 0 ==> res@.len() == 0,
        file@.len() > 0 ==> res@ == audio_dir@ + "/"@ + file@,
{
    if file.is_empty() {
        String::new()
    } else {
        let mut res = String::from_str(audio_dir);
        res.append("/");
        res.append(file);
        res
    }
}

/// Where the audio to play comes from.
#[derive(Debug, PartialEq, Eq, Clone, Copy, Structural)]
pub enum PlaySource {
    /// The cached file.
    LocalFile,
    /// The text, read by the speech service (and cached).
    Synthesize,
    /// Neither a cached file nor a text.
    Nothing,
}

/// The cached file when it is named and exists, else the text when there is one.
pub fn play_source(audio_filepath: &str, file_exists: bool, text: &str) -> (r: PlaySource)
    ensures
        r == (if audio_filepath@.len() > 0 && file_exists {
            PlaySource::LocalFile
        } else if text@.len() > 0 {
            PlaySource::Synthesize
        } else {
            PlaySource::Nothing
        }),
{
    if !audio_filepath.is_empty() && file_exists {
        PlaySource::LocalFile
    } else if !text.is_empty() {
        PlaySource::Synthesize
    } else {
        PlaySource::Nothing
    }
}

/// Whether the recognition did not succeed.
pub fn recognition_failed(item: &Speech2Text) -> (r: bool)
    ensures
        r == (item.recognition_status@ != "Success"@),
{
    !str_eq(item.recognition_status.as_str(), "Success")
}

/// The question after a recognised text arrives: the text alone when the question is
/// blank, else appended to it.
pub fn recognized_question(question: &str, display_text: &str) -> (res: String)
    ensures
        res@ == (if trim(question@).len() == 0 {
            display_text@
        } else {
            question@ + display_text@
        }),
{
    if is_blank(question) {
        String::from_str(display_text)
    } else {
        concat_str(question, display_text)
    }
}

/// Whether a recording is under way; a recording stops when it is cleared.
pub struct RecordingFlag {
    pub is_recording: bool,
}

/// Starts or stops the recording.
pub fn set_recording(flag: &mut RecordingFlag, is_recording: bool)
    ensures
        final(flag).is_recording == is_recording,
{
    flag.is_recording = is_recording;
}

/// Whether the recording goes on at time `now` (seconds): it stops when the flag is
/// cleared or when more than `max_record_time` seconds have passed since `start`.
pub fn keep_recording(flag: &RecordingFlag, now: i64, start: i64, max_record_time: i64) -> (r: bool)
    requires
        i64::MIN <= now - start <= i64::MAX,
    ensures
        r == (flag.is_recording && now - start <= max_record_time),
{
    flag.is_recording && !(now - start > max_record_time)
}

} // verus!
