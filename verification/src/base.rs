//! Small text services of the chat view: line counts, the line numbers beside a code
//! block, list item text and indentation.
use vstd::prelude::*;
use crate::text::{
    chars_to_string, decimal, find_char, lemma_find_from, lines, push_decimal, replace_first,
    skip_back_idx, skip_front_idx, str_chars, str_eq, str_lines, trim, CharClass,
};

verus! {

/// The number of lines of `text` (`str::lines`), as an `i32`.
pub fn line_count(text: &str) -> (r: i32)
    ensures
        r == lines(text@).len() as i32,
{
    let ls = str_lines(text);
    assert(ls@.len() == lines(text@).len());
    ls.len() as i32
}

/// `n` with at least two digits (`{:02}`).
pub open spec fn pad2(n: nat) -> Seq<char> {
    if n < 10 {
        seq!['0'] + decimal(n)
    } else {
        decimal(n)
    }
}

/// The numbers 1 to `m`, two digits at least, one per line.
pub open spec fn numbers_text(m: nat) -> Seq<char>
    decreases m,
{
    if m == 0 {
        Seq::empty()
    } else if m == 1 {
        seq!['0', '1']
    } else {
        numbers_text((m - 1) as nat) + seq!['\n'] + pad2(m)
    }
}

/// The line numbers beside a code block of `text`: none for a single line, else one
/// and a half times as many numbers as there are lines (rounded down).
pub open spec fn code_line_spec(text: Seq<char>) -> Seq<char> {
    let count = lines(text).len();
    if count > 1 {
        numbers_text(count * 3 / 2)
    } else {
        Seq::empty()
    }
}

/// The line numbers beside a code block. The count of numbers is the line count
/// times 1.5, rounded down; the requirement keeps the count where that product is
/// exact in single precision (below 2^23 for every count up to 0x555555).
pub fn code_line_text(text: &str) -> (res: String)
    requires
        lines(text@).len() <= 0x55_5555,
    ensures
        res@ == code_line_spec(text@),
{
    let ls = str_lines(text);
    assert(ls@.len() == lines(text@).len());
    let count = ls.len();
    let mut number_text = String::new();
    if count > 1 {
        let limit = (count * 3 / 2) as u32;
        let mut i: u32 = 0;
        while i < limit
            invariant
                i <= limit,
                limit as nat == count * 3 / 2,
                number_text@ == numbers_text(i as nat),
            decreases limit - i,
        {
            if i == 0 {
                number_text = String::from_str("01");
                proof {
                    reveal_strlit("01");
                }
                assert(number_text@ == numbers_text(1));
            } else {
                number_text.append("\n");
                if i + 1 < 10 {
                    number_text.append("0");
                }
                push_decimal(&mut number_text, i + 1);
                proof {
                    reveal_strlit("\n");
                    reveal_strlit("0");
                    assert(numbers_text((i + 1) as nat) == numbers_text(i as nat) + seq!['\n'] + pad2(
                        (i + 1) as nat,
                    ));
                    if i + 1 < 10 {
                        assert(number_text@ =~= numbers_text(i as nat) + seq!['\n'] + seq!['0']
                            + decimal((i + 1) as nat));
                    } else {
                        assert(number_text@ =~= numbers_text(i as nat) + seq!['\n'] + decimal(
                            (i + 1) as nat,
                        ));
                    }
                }
            }
            i = i + 1;
        }
    } else {
        assert(number_text@ =~= code_line_spec(text@));
    }
    number_text
}

/// A list item's text without its dash: the first `-` becomes a space, then the
/// whitespace at both ends goes.
pub fn list_item_trim(text: &str) -> (res: String)
    ensures
        res@ == trim(replace_first(text@, '-', ' ')),
{
    let mut v = str_chars(text);
    let k = find_char(&v, '-', 0);
    proof {
        lemma_find_from(v@, '-', 0);
    }
    if k < v.len() {
        v.set(k, ' ');
    }
    assert(v@ == replace_first(text@, '-', ' '));
    let n = v.len();
    assert(v@.subrange(0, n as int) == v@);
    let lo = skip_front_idx(&v, 0, n, CharClass::Whitespace);
    let hi = skip_back_idx(&v, lo, n, CharClass::Whitespace);
    chars_to_string(&v, lo, hi)
}

/// The number of spaces that `s` begins with.
pub open spec fn leading_space_count(s: Seq<char>) -> nat
    decreases s.len(),
{
    if s.len() > 0 && s[0] == ' ' {
        1 + leading_space_count(s.drop_first())
    } else {
        0
    }
}

/// The spaces that `text` begins with.
pub fn leading_spaces(text: &str) -> (res: String)
    ensures
        res@ == text@.take(leading_space_count(text@) as int),
{
    let v = str_chars(text);
    let mut i: usize = 0;
    assert(v@.skip(0) == v@);
    while i < v.len() && v[i] == ' '
        invariant
            i <= v.len(),
            i + leading_space_count(v@.skip(i as int)) == leading_space_count(v@),
        decreases v.len() - i,
    {
        assert(v@.skip(i as int).drop_first() == v@.skip(i + 1));
        i = i + 1;
    }
    chars_to_string(&v, 0, i)
}

/// Whether the confirmation dialog of `handle_type` deletes a chat item when it is
/// confirmed.
pub fn confirms_chat_item_delete(handle_type: &str) -> (r: bool)
    ensures
        r == (handle_type@ == "chat-item"@),
{
    str_eq(handle_type, "chat-item")
}

} // verus!
