//! Splitting a chat text into the blocks that the chat view draws: plain paragraphs,
//! fenced code blocks and list items.
use vstd::prelude::*;
use crate::text::{
    lemma_skip_back_idem,
    chars_to_string, find_char, lemma_find_from, lines, range_starts_with, replace_first,
    skip_back_idx, skip_front_idx, starts_with, str_chars, split_lines, trim, trim_end,
    trim_start, views, CharClass,
};

verus! {

/// A block of a rendered chat text. `text_type` is `"plain"`, `"code"` or `"list-item"`.
#[derive(Clone, Debug)]
pub struct CodeTextItem {
    pub text_type: String,
    pub text: String,
}

/// What a `CodeTextItem` holds.
pub struct TextBlock {
    pub kind: Seq<char>,
    pub text: Seq<char>,
}

impl View for CodeTextItem {
    type V = TextBlock;

    open spec fn view(&self) -> TextBlock {
        TextBlock { kind: self.text_type@, text: self.text@ }
    }
}

pub open spec fn blocks(v: Seq<CodeTextItem>) -> Seq<TextBlock> {
    v.map_values(|x: CodeTextItem| x@)
}

/// The kind of the block being collected.
#[derive(Clone, Copy, PartialEq, Eq, Structural)]
pub enum BlockKind {
    Unset,
    Plain,
    Code,
    ListItem,
}

pub open spec fn kind_name(k: BlockKind) -> Seq<char> {
    match k {
        BlockKind::Unset => Seq::empty(),
        BlockKind::Plain => "plain"@,
        BlockKind::Code => "code"@,
        BlockKind::ListItem => "list-item"@,
    }
}

/// The parser's state between two lines.
pub struct ParseState {
    pub items: Seq<TextBlock>,
    pub kind: BlockKind,
    pub text: Seq<char>,
    pub in_code: bool,
}

pub open spec fn fence() -> Seq<char> {
    seq!['`', '`', '`']
}

pub open spec fn dash_space() -> Seq<char> {
    seq!['-', ' ']
}

/// The bullet that replaces the dash of a list item.
pub open spec fn bullet() -> char {
    '\u{26AB}'
}

/// The block being collected, closed and added to `items` when it holds any text.
pub open spec fn flush(items: Seq<TextBlock>, kind: BlockKind, text: Seq<char>) -> Seq<TextBlock> {
    if text.len() > 0 {
        items.push(TextBlock { kind: kind_name(kind), text: trim_end(text) })
    } else {
        items
    }
}

pub open spec fn initial_state() -> ParseState {
    ParseState { items: Seq::empty(), kind: BlockKind::Unset, text: Seq::empty(), in_code: false }
}

/// What one line does to the parser's state.
pub open spec fn step(st: ParseState, line: Seq<char>) -> ParseState {
    if starts_with(trim(line), fence()) {
        ParseState {
            items: flush(st.items, st.kind, st.text),
            kind: BlockKind::Unset,
            text: Seq::empty(),
            in_code: !st.in_code,
        }
    } else {
        let kind1 = if st.in_code && st.kind == BlockKind::Unset {
            BlockKind::Code
        } else {
            st.kind
        };
        let is_list = !st.in_code && starts_with(trim_start(line), dash_space());
        let items2 = if is_list && st.text.len() > 0 {
            flush(st.items, kind1, st.text)
        } else {
            st.items
        };
        let kind2 = if is_list {
            BlockKind::ListItem
        } else if !st.in_code && kind1 == BlockKind::Unset {
            BlockKind::Plain
        } else {
            kind1
        };
        if kind2 == BlockKind::ListItem {
            ParseState {
                items: items2.push(
                    TextBlock {
                        kind: kind_name(BlockKind::ListItem),
                        text: trim_end(replace_first(line, '-', bullet())),
                    },
                ),
                kind: BlockKind::Unset,
                text: Seq::empty(),
                in_code: st.in_code,
            }
        } else {
            ParseState {
                items: items2,
                kind: kind2,
                text: st.text + line + seq!['\n'],
                in_code: st.in_code,
            }
        }
    }
}

/// The blocks of the text whose remaining lines are `ls`, from state `st` on.
pub open spec fn parse_lines(ls: Seq<Seq<char>>, st: ParseState) -> Seq<TextBlock>
    decreases ls.len(),
{
    if ls.len() == 0 {
        flush(st.items, st.kind, st.text)
    } else {
        parse_lines(ls.drop_first(), step(st, ls[0]))
    }
}

/// The blocks of a chat text.
pub open spec fn parse_spec(s: Seq<char>) -> Seq<TextBlock> {
    parse_lines(lines(s), initial_state())
}

/// A well-formed block: one of the three kinds, with no trailing whitespace.
pub open spec fn well_formed_block(b: TextBlock) -> bool {
    &&& (b.kind == "plain"@ || b.kind == "code"@ || b.kind == "list-item"@)
    &&& trim_end(b.text) == b.text
}

pub open spec fn well_formed_state(st: ParseState) -> bool {
    &&& forall|i: int| 0 <= i < st.items.len() ==> well_formed_block(#[trigger] st.items[i])
    &&& st.text.len() > 0 ==> st.kind != BlockKind::Unset
}

proof fn lemma_flush_well_formed(items: Seq<TextBlock>, kind: BlockKind, text: Seq<char>)
    requires
        forall|i: int| 0 <= i < items.len() ==> well_formed_block(#[trigger] items[i]),
        text.len() > 0 ==> kind != BlockKind::Unset,
    ensures
        forall|i: int|
            0 <= i < flush(items, kind, text).len() ==> well_formed_block(
                #[trigger] flush(items, kind, text)[i],
            ),
{
    if text.len() > 0 {
        lemma_skip_back_idem(text, CharClass::Whitespace);
        let out = flush(items, kind, text);
        assert forall|i: int| 0 <= i < out.len() implies well_formed_block(#[trigger] out[i]) by {
            if i < items.len() {
                assert(out[i] == items[i]);
            }
        }
    }
}

proof fn lemma_step_well_formed(st: ParseState, line: Seq<char>)
    requires
        well_formed_state(st),
    ensures
        well_formed_state(step(st, line)),
{
    lemma_flush_well_formed(st.items, st.kind, st.text);
    let kind1 = if st.in_code && st.kind == BlockKind::Unset {
        BlockKind::Code
    } else {
        st.kind
    };
    lemma_flush_well_formed(st.items, kind1, st.text);
    lemma_skip_back_idem(replace_first(line, '-', bullet()), CharClass::Whitespace);
    let nx = step(st, line);
    if !starts_with(trim(line), fence()) {
        let is_list = !st.in_code && starts_with(trim_start(line), dash_space());
        let items2 = if is_list && st.text.len() > 0 {
            flush(st.items, kind1, st.text)
        } else {
            st.items
        };
        assert forall|i: int| 0 <= i < nx.items.len() implies well_formed_block(#[trigger] nx.items[i]) by {
            if i < items2.len() {
                assert(nx.items[i] == items2[i]);
            }
        }
    }
}

proof fn lemma_parse_lines_well_formed(ls: Seq<Seq<char>>, st: ParseState)
    requires
        well_formed_state(st),
    ensures
        forall|i: int|
            0 <= i < parse_lines(ls, st).len() ==> well_formed_block(#[trigger] parse_lines(ls, st)[i]),
    decreases ls.len(),
{
    if ls.len() == 0 {
        lemma_flush_well_formed(st.items, st.kind, st.text);
        assert(parse_lines(ls, st) == flush(st.items, st.kind, st.text));
    } else {
        lemma_step_well_formed(st, ls[0]);
        lemma_parse_lines_well_formed(ls.drop_first(), step(st, ls[0]));
        assert(parse_lines(ls, st) == parse_lines(ls.drop_first(), step(st, ls[0])));
    }
}

/// Every block of a rendered chat text is a plain, code or list-item block, and its
/// text ends in no whitespace.
pub proof fn law_rendered_blocks_well_formed(s: Seq<char>)
    ensures
        forall|i: int| 0 <= i < parse_spec(s).len() ==> well_formed_block(#[trigger] parse_spec(s)[i]),
{
    lemma_parse_lines_well_formed(lines(s), initial_state());
}

/// The text of the lines `ls`, each as written and followed by a line break.
pub open spec fn joined_lines(ls: Seq<Seq<char>>) -> Seq<char>
    decreases ls.len(),
{
    if ls.len() == 0 {
        Seq::empty()
    } else {
        ls[0] + seq!['\n'] + joined_lines(ls.drop_first())
    }
}

proof fn lemma_code_lines(
    body: Seq<Seq<char>>,
    rest: Seq<Seq<char>>,
    items: Seq<TextBlock>,
    kind: BlockKind,
    t: Seq<char>,
)
    requires
        forall|i: int| 0 <= i < body.len() ==> !starts_with(trim(#[trigger] body[i]), seq!['`', '`', '`']),
        kind == BlockKind::Code || kind == BlockKind::Unset,
    ensures
        parse_lines(body + rest, ParseState { items, kind, text: t, in_code: true }) == parse_lines(
            rest,
            ParseState {
                items,
                kind: if body.len() > 0 { BlockKind::Code } else { kind },
                text: t + joined_lines(body),
                in_code: true,
            },
        ),
    decreases body.len(),
{
    if body.len() == 0 {
        assert(body + rest =~= rest);
        assert(t + joined_lines(body) =~= t);
    } else {
        let line = body[0];
        assert(fence() == seq!['`', '`', '`']);
        let st = ParseState { items, kind, text: t, in_code: true };
        let nx = ParseState { items, kind: BlockKind::Code, text: t + line + seq!['\n'], in_code: true };
        assert(step(st, line) == nx);
        assert((body + rest)[0] == line);
        assert((body + rest).drop_first() =~= body.drop_first() + rest);
        assert forall|i: int| 0 <= i < body.drop_first().len() implies !starts_with(
            trim(#[trigger] body.drop_first()[i]),
            seq!['`', '`', '`'],
        ) by {
            assert(body.drop_first()[i] == body[i + 1]);
        }
        lemma_code_lines(body.drop_first(), rest, items, BlockKind::Code, t + line + seq!['\n']);
        assert(t + line + seq!['\n'] + joined_lines(body.drop_first()) =~= t + joined_lines(body));
    }
}

/// A fenced code block keeps its lines as written: for a text whose lines are an
/// opening fence (a line that begins with three backquotes once trimmed), then lines
/// that are not fences, then a closing fence, the rendering is one code block whose
/// text is those lines, each exactly as written (leading whitespace kept), joined with
/// line breaks, with only the trailing whitespace of the whole block removed.
pub proof fn law_code_block_keeps_lines(
    s: Seq<char>,
    open: Seq<char>,
    body: Seq<Seq<char>>,
    close: Seq<char>,
)
    requires
        lines(s) == seq![open] + body + seq![close],
        starts_with(trim(open), seq!['`', '`', '`']),
        starts_with(trim(close), seq!['`', '`', '`']),
        forall|i: int| 0 <= i < body.len() ==> !starts_with(trim(#[trigger] body[i]), seq!['`', '`', '`']),
        body.len() > 0,
    ensures
        parse_spec(s) == seq![TextBlock { kind: "code"@, text: trim_end(joined_lines(body)) }],
{
    assert(fence() == seq!['`', '`', '`']);
    let ls = lines(s);
    let st0 = initial_state();
    assert(flush(Seq::<TextBlock>::empty(), BlockKind::Unset, Seq::<char>::empty()) =~= Seq::<TextBlock>::empty());
    let st1 = ParseState { items: Seq::empty(), kind: BlockKind::Unset, text: Seq::empty(), in_code: true };
    assert(step(st0, open) == st1);
    assert(ls[0] == open);
    assert(ls.drop_first() =~= body + seq![close]);
    assert(parse_spec(s) == parse_lines(body + seq![close], st1));
    lemma_code_lines(body, seq![close], Seq::empty(), BlockKind::Unset, Seq::empty());
    let j = joined_lines(body);
    assert(Seq::<char>::empty() + j =~= j);
    assert(j.len() > 0) by {
        assert(j == body[0] + seq!['\n'] + joined_lines(body.drop_first()));
    }
    let st2 = ParseState { items: Seq::empty(), kind: BlockKind::Code, text: j, in_code: true };
    let block = TextBlock { kind: kind_name(BlockKind::Code), text: trim_end(j) };
    let st3 = ParseState { items: seq![block], kind: BlockKind::Unset, text: Seq::empty(), in_code: false };
    assert(flush(Seq::<TextBlock>::empty(), BlockKind::Code, j) =~= seq![block]);
    assert(step(st2, close) == st3);
    assert(seq![close][0] == close);
    assert(seq![close].drop_first() =~= Seq::<Seq<char>>::empty());
    assert(parse_lines(seq![close], st2) == parse_lines(Seq::<Seq<char>>::empty(), st3));
    assert(parse_lines(Seq::<Seq<char>>::empty(), st3) == flush(seq![block], BlockKind::Unset, Seq::<char>::empty()));
}

fn kind_string(k: BlockKind) -> (r: String)
    ensures
        r@ == kind_name(k),
{
    match k {
        BlockKind::Unset => String::new(),
        BlockKind::Plain => String::from_str("plain"),
        BlockKind::Code => String::from_str("code"),
        BlockKind::ListItem => String::from_str("list-item"),
    }
}

/// Closes the block being collected into `items`, as `flush` states.
fn flush_exec(items: &mut Vec<CodeTextItem>, kind: BlockKind, text: &Vec<char>)
    ensures
        blocks(final(items)@) == flush(blocks(old(items)@), kind, text@),
{
    if text.len() > 0 {
        let hi = skip_back_idx(text, 0, text.len(), CharClass::Whitespace);
        assert(text@.subrange(0, text.len() as int) == text@);
        let item = CodeTextItem { text_type: kind_string(kind), text: chars_to_string(text, 0, hi) };
        items.push(item);
        assert(blocks(items@) == blocks(old(items)@).push(item@));
    }
}

/// Splits a chat reply into blocks: a line whose trimmed text begins with three
/// backquotes opens or closes a code block; outside code blocks, a line that begins
/// with `- ` after its indentation is a list item, whose dash becomes a bullet; the
/// other lines gather into plain blocks. Each block's text loses its trailing
/// whitespace.
pub fn parse_chat_text(data: &str) -> (res: Vec<CodeTextItem>)
    ensures
        blocks(res@) == parse_spec(data@),
{
    let chars = str_chars(data);
    let ls = split_lines(&chars);
    let fence_pat = vec!['`', '`', '`'];
    let dash_pat = vec!['-', ' '];
    assert(fence_pat@ == fence());
    assert(dash_pat@ == dash_space());
    let mut items: Vec<CodeTextItem> = Vec::new();
    let mut kind = BlockKind::Unset;
    let mut text: Vec<char> = Vec::new();
    let mut in_code = false;
    let ghost all = views(ls@);
    let mut i: usize = 0;
    assert(all.skip(0) == all);
    assert(blocks(items@) =~= Seq::<TextBlock>::empty());
    assert(text@ =~= Seq::<char>::empty());
    while i < ls.len()
        invariant
            i <= ls.len(),
            all == views(ls@),
            all == lines(data@),
            fence_pat@ == fence(),
            dash_pat@ == dash_space(),
            parse_lines(all.skip(i as int), ParseState { items: blocks(items@), kind, text: text@, in_code })
                == parse_spec(data@),
        decreases ls.len() - i,
    {
        let line = &ls[i];
        let ghost st = ParseState { items: blocks(items@), kind, text: text@, in_code };
        assert(all.skip(i as int).drop_first() == all.skip(i + 1));
        assert(all.skip(i as int)[0] == line@);
        let n = line.len();
        assert(line@.subrange(0, n as int) == line@);
        let lo = skip_front_idx(line, 0, n, CharClass::Whitespace);
        let hi = skip_back_idx(line, lo, n, CharClass::Whitespace);
        let fenced = range_starts_with(line, lo, hi, &fence_pat);
        if fenced {
            flush_exec(&mut items, kind, &text);
            kind = BlockKind::Unset;
            text = Vec::new();
            in_code = !in_code;
        } else {
            if in_code && kind == BlockKind::Unset {
                kind = BlockKind::Code;
            }
            let is_list = !in_code && range_starts_with(line, lo, n, &dash_pat);
            if is_list && text.len() > 0 {
                flush_exec(&mut items, kind, &text);
            }
            if is_list {
                kind = BlockKind::ListItem;
            } else if !in_code && kind == BlockKind::Unset {
                kind = BlockKind::Plain;
            }
            if kind == BlockKind::ListItem {
                let mut replaced = line.clone();
                let k = find_char(line, '-', 0);
                proof {
                    lemma_find_from(line@, '-', 0);
                }
                if k < n {
                    replaced.set(k, '\u{26AB}');
                }
                assert(replaced@ == replace_first(line@, '-', bullet()));
                let rhi = skip_back_idx(&replaced, 0, n, CharClass::Whitespace);
                assert(replaced@.subrange(0, n as int) == replaced@);
                let item = CodeTextItem {
                    text_type: kind_string(BlockKind::ListItem),
                    text: chars_to_string(&replaced, 0, rhi),
                };
                let ghost before = items@;
                items.push(item);
                assert(blocks(items@) == blocks(before).push(item@));
                kind = BlockKind::Unset;
                text = Vec::new();
            } else {
                let mut k: usize = 0;
                let ghost t0 = text@;
                while k < n
                    invariant
                        k <= n == line.len(),
                        text@ == t0 + line@.subrange(0, k as int),
                    decreases n - k,
                {
                    text.push(line[k]);
                    assert(line@.subrange(0, k + 1) == line@.subrange(0, k as int).push(line@[k as int]));
                    k = k + 1;
                }
                text.push('\n');
            }
        }
        let ghost nx = step(st, line@);
        assert(nx.items == blocks(items@));
        assert(nx.kind == kind);
        assert(nx.text == text@);
        assert(nx.in_code == in_code);
        i = i + 1;
    }
    flush_exec(&mut items, kind, &text);
    items
}

} // verus!
