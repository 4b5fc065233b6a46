//! Character classes and the string operations that the chat logic is built on:
//! trimming, line splitting, prefixes and replacement, all stated over `Seq<char>`.
use vstd::prelude::*;

verus! {

/// The Unicode `White_Space` property, as `char::is_whitespace` documents it.
pub open spec fn is_ws(c: char) -> bool {
    let u = c as u32;
    ||| 0x09 <= u <= 0x0D
    ||| u == 0x20
    ||| u == 0x85
    ||| u == 0xA0
    ||| u == 0x1680
    ||| 0x2000 <= u <= 0x200A
    ||| u == 0x2028
    ||| u == 0x2029
    ||| u == 0x202F
    ||| u == 0x205F
    ||| u == 0x3000
}

/// General category `Cc`, as `char::is_control` documents it.
pub open spec fn is_control(c: char) -> bool {
    let u = c as u32;
    u <= 0x1F || (0x7F <= u <= 0x9F)
}

/// ASCII punctuation, as `char::is_ascii_punctuation` documents it.
pub open spec fn is_ascii_punct(c: char) -> bool {
    let u = c as u32;
    ||| 0x21 <= u <= 0x2F
    ||| 0x3A <= u <= 0x40
    ||| 0x5B <= u <= 0x60
    ||| 0x7B <= u <= 0x7E
}

pub open spec fn is_ascii_char(c: char) -> bool {
    (c as u32) < 0x80
}

/// The classes of characters that the trimming operations strip.
#[derive(Clone, Copy, PartialEq, Eq, Structural)]
pub enum CharClass {
    /// `char::is_whitespace`.
    Whitespace,
    /// ASCII punctuation, control characters and whitespace.
    Filler,
}

pub open spec fn in_class(c: char, cls: CharClass) -> bool {
    match cls {
        CharClass::Whitespace => is_ws(c),
        CharClass::Filler => is_ascii_punct(c) || is_control(c) || is_ws(c),
    }
}

pub fn char_is_ws(c: char) -> (r: bool)
    ensures
        r == is_ws(c),
{
    let u = c as u32;
    (0x09 <= u && u <= 0x0D) || u == 0x20 || u == 0x85 || u == 0xA0 || u == 0x1680 || (0x2000
        <= u && u <= 0x200A) || u == 0x2028 || u == 0x2029 || u == 0x202F || u == 0x205F || u
        == 0x3000
}

pub fn char_is_ascii(c: char) -> (r: bool)
    ensures
        r == is_ascii_char(c),
{
    (c as u32) < 0x80
}

pub fn char_in_class(c: char, cls: CharClass) -> (r: bool)
    ensures
        r == in_class(c, cls),
{
    match cls {
        CharClass::Whitespace => char_is_ws(c),
        CharClass::Filler => {
            let u = c as u32;
            let punct = (0x21 <= u && u <= 0x2F) || (0x3A <= u && u <= 0x40) || (0x5B <= u && u
                <= 0x60) || (0x7B <= u && u <= 0x7E);
            let control = u <= 0x1F || (0x7F <= u && u <= 0x9F);
            punct || control || char_is_ws(c)
        },
    }
}

/// `s` without its leading characters of class `cls`.
pub open spec fn skip_front(s: Seq<char>, cls: CharClass) -> Seq<char>
    decreases s.len(),
{
    if s.len() > 0 && in_class(s[0], cls) {
        skip_front(s.drop_first(), cls)
    } else {
        s
    }
}

/// `s` without its trailing characters of class `cls`.
pub open spec fn skip_back(s: Seq<char>, cls: CharClass) -> Seq<char>
    decreases s.len(),
{
    if s.len() > 0 && in_class(s.last(), cls) {
        skip_back(s.drop_last(), cls)
    } else {
        s
    }
}

/// `str::trim_start`.
pub open spec fn trim_start(s: Seq<char>) -> Seq<char> {
    skip_front(s, CharClass::Whitespace)
}

/// `str::trim_end`.
pub open spec fn trim_end(s: Seq<char>) -> Seq<char> {
    skip_back(s, CharClass::Whitespace)
}

/// `str::trim`.
pub open spec fn trim(s: Seq<char>) -> Seq<char> {
    skip_back(skip_front(s, CharClass::Whitespace), CharClass::Whitespace)
}

/// `s` without the characters of class `cls` at either end.
pub open spec fn strip_both(s: Seq<char>, cls: CharClass) -> Seq<char> {
    skip_back(skip_front(s, cls), cls)
}

pub open spec fn starts_with(s: Seq<char>, pat: Seq<char>) -> bool {
    pat.len() <= s.len() && s.take(pat.len() as int) == pat
}

/// Index of the first `c` in `s` at or after `i`, or `s.len()`.
pub open spec fn find_from(s: Seq<char>, c: char, i: int) -> int
    decreases s.len() - i,
{
    if i < 0 || i >= s.len() {
        s.len() as int
    } else if s[i] == c {
        i
    } else {
        find_from(s, c, i + 1)
    }
}

pub proof fn lemma_find_from(s: Seq<char>, c: char, i: int)
    requires
        0 <= i <= s.len(),
    ensures
        i <= find_from(s, c, i) <= s.len(),
        find_from(s, c, i) < s.len() ==> s[find_from(s, c, i)] == c,
        forall|k: int| i <= k < find_from(s, c, i) ==> s[k] != c,
    decreases s.len() - i,
{
    if i < s.len() && s[i] != c {
        lemma_find_from(s, c, i + 1);
    }
}

/// `s` with its first `from` replaced by `to` (`str::replacen` with a count of one).
pub open spec fn replace_first(s: Seq<char>, from: char, to: char) -> Seq<char> {
    let k = find_from(s, from, 0);
    if k < s.len() {
        s.update(k, to)
    } else {
        s
    }
}

/// A line as `str::lines` yields it: a `\r` before the `\n` is dropped.
pub open spec fn strip_cr(t: Seq<char>) -> Seq<char> {
    if t.len() > 0 && t.last() == '\r' {
        t.drop_last()
    } else {
        t
    }
}

/// The lines of `s` from position `i` on, as `str::lines` yields them.
pub open spec fn lines_from(s: Seq<char>, i: int) -> Seq<Seq<char>>
    decreases s.len() - i,
{
    if i < 0 || i >= s.len() {
        seq![]
    } else {
        let j = find_from(s, '\n', i);
        proof {
            lemma_find_from(s, '\n', i);
        }
        if j < s.len() {
            seq![strip_cr(s.subrange(i, j))] + lines_from(s, j + 1)
        } else {
            seq![s.subrange(i, j)]
        }
    }
}

/// `str::lines`.
pub open spec fn lines(s: Seq<char>) -> Seq<Seq<char>> {
    lines_from(s, 0)
}

pub open spec fn views(v: Seq<Vec<char>>) -> Seq<Seq<char>> {
    v.map_values(|x: Vec<char>| x@)
}

pub open spec fn string_views(v: Seq<String>) -> Seq<Seq<char>> {
    v.map_values(|x: String| x@)
}

#[verifier::external_body]
fn push_char(s: &mut String, c: char)
    ensures
        final(s)@ == old(s)@.push(c),
{
    s.push(c);
}

/// The characters of `s`.
pub fn str_chars(s: &str) -> (res: Vec<char>)
    ensures
        res@ == s@,
{
    let mut res: Vec<char> = Vec::new();
    for c in it: s.chars()
        invariant
            res@ == it.seq().take(it.index() as int),
            it.seq() == s@,
    {
        res.push(c);
    }
    res
}

/// The string made of `v[lo..hi]`.
pub fn chars_to_string(v: &Vec<char>, lo: usize, hi: usize) -> (res: String)
    requires
        lo <= hi <= v.len(),
    ensures
        res@ == v@.subrange(lo as int, hi as int),
{
    let mut res = String::new();
    let mut i = lo;
    while i < hi
        invariant
            lo <= i <= hi <= v.len(),
            res@ == v@.subrange(lo as int, i as int),
        decreases hi - i,
    {
        push_char(&mut res, v[i]);
        assert(v@.subrange(lo as int, i + 1) == v@.subrange(lo as int, i as int).push(v@[i as int]));
        i = i + 1;
    }
    res
}

/// `a` followed by `b`.
pub fn concat_str(a: &str, b: &str) -> (res: String)
    ensures
        res@ == a@ + b@,
{
    let mut res = String::from_str(a);
    res.append(b);
    res
}

pub proof fn lemma_skip_front_len(s: Seq<char>, cls: CharClass)
    ensures
        skip_front(s, cls).len() <= s.len(),
        skip_front(s, cls) == s.skip(s.len() - skip_front(s, cls).len()),
        skip_front(s, cls).len() > 0 ==> !in_class(skip_front(s, cls)[0], cls),
    decreases s.len(),
{
    if s.len() > 0 && in_class(s[0], cls) {
        lemma_skip_front_len(s.drop_first(), cls);
        assert(s.drop_first().skip(s.drop_first().len() - skip_front(s.drop_first(), cls).len())
            == s.skip(s.len() - skip_front(s, cls).len()));
    } else {
        assert(s.skip(0) == s);
    }
}

pub proof fn lemma_skip_back_len(s: Seq<char>, cls: CharClass)
    ensures
        skip_back(s, cls).len() <= s.len(),
        skip_back(s, cls) == s.take(skip_back(s, cls).len() as int),
        skip_back(s, cls).len() > 0 ==> !in_class(skip_back(s, cls).last(), cls),
    decreases s.len(),
{
    if s.len() > 0 && in_class(s.last(), cls) {
        lemma_skip_back_len(s.drop_last(), cls);
        assert(s.drop_last().take(skip_back(s.drop_last(), cls).len() as int) == s.take(
            skip_back(s, cls).len() as int,
        ));
    } else {
        assert(s.take(s.len() as int) == s);
    }
}

/// `skip_back` leaves nothing more to strip.
pub proof fn lemma_skip_back_idem(s: Seq<char>, cls: CharClass)
    ensures
        skip_back(skip_back(s, cls), cls) == skip_back(s, cls),
{
    lemma_skip_back_len(s, cls);
}

/// Stripping both ends twice strips no more than once.
pub proof fn lemma_strip_both_idem(s: Seq<char>, cls: CharClass)
    ensures
        strip_both(strip_both(s, cls), cls) == strip_both(s, cls),
{
    let t = skip_front(s, cls);
    lemma_skip_front_len(s, cls);
    lemma_skip_back_len(t, cls);
    let u = skip_back(t, cls);
    if u.len() > 0 {
        assert(u[0] == t[0]);
    }
    assert(skip_front(u, cls) == u);
    lemma_skip_back_idem(t, cls);
}

/// The first index in `v[lo..hi]` whose character is not of class `cls`.
pub fn skip_front_idx(v: &Vec<char>, lo: usize, hi: usize, cls: CharClass) -> (r: usize)
    requires
        lo <= hi <= v.len(),
    ensures
        lo <= r <= hi,
        v@.subrange(r as int, hi as int) == skip_front(v@.subrange(lo as int, hi as int), cls),
{
    let mut i = lo;
    while i < hi && char_in_class(v[i], cls)
        invariant
            lo <= i <= hi <= v.len(),
            skip_front(v@.subrange(i as int, hi as int), cls) == skip_front(
                v@.subrange(lo as int, hi as int),
                cls,
            ),
        decreases hi - i,
    {
        assert(v@.subrange(i as int, hi as int).drop_first() == v@.subrange(i + 1, hi as int));
        i = i + 1;
    }
    i
}

/// One past the last index in `v[lo..hi]` whose character is not of class `cls`.
pub fn skip_back_idx(v: &Vec<char>, lo: usize, hi: usize, cls: CharClass) -> (r: usize)
    requires
        lo <= hi <= v.len(),
    ensures
        lo <= r <= hi,
        v@.subrange(lo as int, r as int) == skip_back(v@.subrange(lo as int, hi as int), cls),
{
    let mut j = hi;
    while j > lo && char_in_class(v[j - 1], cls)
        invariant
            lo <= j <= hi <= v.len(),
            skip_back(v@.subrange(lo as int, j as int), cls) == skip_back(
                v@.subrange(lo as int, hi as int),
                cls,
            ),
        decreases j - lo,
    {
        assert(v@.subrange(lo as int, j as int).drop_last() == v@.subrange(lo as int, j - 1));
        j = j - 1;
    }
    j
}

/// Whether `v[lo..hi]` begins with `pat`.
pub fn range_starts_with(v: &Vec<char>, lo: usize, hi: usize, pat: &Vec<char>) -> (r: bool)
    requires
        lo <= hi <= v.len(),
    ensures
        r == starts_with(v@.subrange(lo as int, hi as int), pat@),
{
    if pat.len() > hi - lo {
        return false;
    }
    let mut k: usize = 0;
    while k < pat.len()
        invariant
            pat.len() <= hi - lo,
            lo <= hi <= v.len(),
            k <= pat.len(),
            forall|m: int| 0 <= m < k ==> v@[lo + m] == pat@[m],
        decreases pat.len() - k,
    {
        if v[lo + k] != pat[k] {
            assert(v@.subrange(lo as int, hi as int).take(pat.len() as int)[k as int] != pat@[k as int]);
            return false;
        }
        k = k + 1;
    }
    assert(v@.subrange(lo as int, hi as int).take(pat.len() as int) == pat@);
    true
}

/// The index of the first `c` in `v` at or after `i`, or `v.len()`.
pub fn find_char(v: &Vec<char>, c: char, i: usize) -> (r: usize)
    requires
        i <= v.len(),
    ensures
        r == find_from(v@, c, i as int),
{
    let mut j = i;
    while j < v.len() && v[j] != c
        invariant
            i <= j <= v.len(),
            find_from(v@, c, j as int) == find_from(v@, c, i as int),
        decreases v.len() - j,
    {
        j = j + 1;
    }
    j
}

/// The lines of `v`, as `str::lines` yields them.
pub fn split_lines(v: &Vec<char>) -> (res: Vec<Vec<char>>)
    ensures
        views(res@) == lines(v@),
{
    let mut res: Vec<Vec<char>> = Vec::new();
    let mut i: usize = 0;
    while i < v.len()
        invariant
            i <= v.len(),
            views(res@) + lines_from(v@, i as int) == lines(v@),
        decreases v.len() - i,
    {
        let j = find_char(v, '\n', i);
        proof {
            lemma_find_from(v@, '\n', i as int);
        }
        let mut hi = j;
        if j < v.len() && j > i && v[j - 1] == '\r' {
            hi = j - 1;
        }
        let mut line: Vec<char> = Vec::new();
        let mut k = i;
        while k < hi
            invariant
                i <= k <= hi <= j <= v.len(),
                line@ == v@.subrange(i as int, k as int),
            decreases hi - k,
        {
            line.push(v[k]);
            assert(v@.subrange(i as int, k + 1) == v@.subrange(i as int, k as int).push(v@[k as int]));
            k = k + 1;
        }
        proof {
            if j < v.len() {
                assert(line@ == strip_cr(v@.subrange(i as int, j as int)));
            }
            assert(views(res@.push(line)) == views(res@).push(line@));
            assert(lines_from(v@, i as int) == seq![line@] + lines_from(v@, j + 1));
            assert(views(res@) + lines_from(v@, i as int) == views(res@.push(line)) + lines_from(v@, j + 1));
        }
        res.push(line);
        if j < v.len() {
            i = j + 1;
        } else {
            i = j;
        }
    }
    assert(views(res@) + lines_from(v@, i as int) == views(res@));
    res
}

/// Whether `a` and `b` hold the same characters.
pub fn chars_eq(a: &Vec<char>, b: &Vec<char>) -> (r: bool)
    ensures
        r == (a@ == b@),
{
    if a.len() != b.len() {
        return false;
    }
    let mut i: usize = 0;
    while i < a.len()
        invariant
            a.len() == b.len(),
            i <= a.len(),
            forall|k: int| 0 <= k < i ==> a@[k] == b@[k],
        decreases a.len() - i,
    {
        if a[i] != b[i] {
            return false;
        }
        i = i + 1;
    }
    assert(a@ =~= b@);
    true
}

/// Whether `a` and `b` are the same string.
pub fn str_eq(a: &str, b: &str) -> (r: bool)
    ensures
        r == (a@ == b@),
{
    let ca = str_chars(a);
    let cb = str_chars(b);
    chars_eq(&ca, &cb)
}

/// `str::trim` of `s`, as a new string.
pub fn trimmed(s: &str) -> (res: String)
    ensures
        res@ == trim(s@),
{
    let v = str_chars(s);
    let n = v.len();
    assert(v@.subrange(0, n as int) == v@);
    let lo = skip_front_idx(&v, 0, n, CharClass::Whitespace);
    let hi = skip_back_idx(&v, lo, n, CharClass::Whitespace);
    chars_to_string(&v, lo, hi)
}

/// `str::trim_start` of `s`, as a new string.
pub fn trimmed_start(s: &str) -> (res: String)
    ensures
        res@ == trim_start(s@),
{
    let v = str_chars(s);
    let n = v.len();
    assert(v@.subrange(0, n as int) == v@);
    let lo = skip_front_idx(&v, 0, n, CharClass::Whitespace);
    chars_to_string(&v, lo, n)
}

/// Whether `str::trim` leaves nothing of `s`.
pub fn is_blank(s: &str) -> (r: bool)
    ensures
        r == (trim(s@).len() == 0),
{
    let t = trimmed(s);
    t.as_str().is_empty()
}

/// The lines of `s`, as `str::lines` yields them.
pub fn str_lines(s: &str) -> (res: Vec<Vec<char>>)
    ensures
        views(res@) == lines(s@),
{
    let v = str_chars(s);
    split_lines(&v)
}

/// Lexicographic order of texts by code point, which is also the byte order of their
/// UTF-8 encodings.
pub open spec fn chars_lt(a: Seq<char>, b: Seq<char>) -> bool
    decreases a.len(),
{
    if a.len() == 0 {
        b.len() > 0
    } else if b.len() == 0 {
        false
    } else if (a[0] as u32) < (b[0] as u32) {
        true
    } else if (a[0] as u32) == (b[0] as u32) {
        chars_lt(a.drop_first(), b.drop_first())
    } else {
        false
    }
}

pub proof fn lemma_chars_lt_asym(a: Seq<char>, b: Seq<char>)
    ensures
        !(chars_lt(a, b) && chars_lt(b, a)),
    decreases a.len(),
{
    if a.len() > 0 && b.len() > 0 && (a[0] as u32) == (b[0] as u32) {
        lemma_chars_lt_asym(a.drop_first(), b.drop_first());
    }
}

/// If `a` comes before `c`, then any `b` comes after `a` or before `c`.
pub proof fn lemma_chars_lt_weak(a: Seq<char>, b: Seq<char>, c: Seq<char>)
    requires
        chars_lt(a, c),
    ensures
        chars_lt(a, b) || chars_lt(b, c),
    decreases a.len(),
{
    if a.len() > 0 && b.len() > 0 && c.len() > 0 {
        if (a[0] as u32) == (b[0] as u32) && (b[0] as u32) == (c[0] as u32) {
            lemma_chars_lt_weak(a.drop_first(), b.drop_first(), c.drop_first());
        }
    }
}

/// Whether `a` comes before `b` in the order of `chars_lt`.
pub fn chars_vec_lt(a: &Vec<char>, b: &Vec<char>) -> (r: bool)
    ensures
        r == chars_lt(a@, b@),
{
    let mut i: usize = 0;
    assert(a@.skip(0) == a@);
    assert(b@.skip(0) == b@);
    while i < a.len() && i < b.len() && (a[i] as u32) == (b[i] as u32)
        invariant
            i <= a.len(),
            i <= b.len(),
            chars_lt(a@.skip(i as int), b@.skip(i as int)) == chars_lt(a@, b@),
        decreases a.len() - i,
    {
        assert(a@.skip(i as int).drop_first() == a@.skip(i + 1));
        assert(b@.skip(i as int).drop_first() == b@.skip(i + 1));
        i = i + 1;
    }
    if i == a.len() {
        i < b.len()
    } else if i == b.len() {
        false
    } else {
        assert(a@.skip(i as int)[0] == a@[i as int]);
        assert(b@.skip(i as int)[0] == b@[i as int]);
        (a[i] as u32) < (b[i] as u32)
    }
}

/// What `str::to_lowercase` makes of a text.
pub uninterp spec fn lowercase(s: Seq<char>) -> Seq<char>;

/// `str::to_lowercase`: the text with each character mapped to its Unicode lowercase
/// form. The mapping takes tables to state, so the result is named by `lowercase`,
/// a function of the text alone.
#[verifier::external_body]
pub fn to_lowercase(s: &str) -> (res: String)
    ensures
        res@ == lowercase(s@),
{
    s.to_lowercase()
}

/// Whether `pat` occurs in `s`.
pub open spec fn contains_seq(s: Seq<char>, pat: Seq<char>) -> bool {
    exists|i: int| 0 <= i && i + pat.len() <= s.len() && #[trigger] s.subrange(i, i + pat.len()) == pat
}

/// Whether `pat` occurs in `s` (`str::contains`).
pub fn str_contains(s: &str, pat: &str) -> (r: bool)
    ensures
        r == contains_seq(s@, pat@),
{
    let v = str_chars(s);
    let p = str_chars(pat);
    if p.len() > v.len() {
        return false;
    }
    let last = v.len() - p.len();
    let n = v.len();
    assert(v@.subrange(0, n as int) == v@);
    let mut i: usize = 0;
    loop
        invariant
            p.len() <= v.len(),
            last == v.len() - p.len(),
            n == v.len(),
            i <= last,
            v@ == s@,
            p@ == pat@,
            forall|j: int| 0 <= j < i ==> #[trigger] v@.subrange(j, j + p.len()) != p@,
        decreases last - i,
    {
        assert(v@.subrange(i as int, n as int).take(p.len() as int) == v@.subrange(
            i as int,
            i + p.len(),
        ));
        if range_starts_with(&v, i, n, &p) {
            return true;
        }
        if i == last {
            assert forall|j: int| 0 <= j && j + p@.len() <= s@.len() implies #[trigger] s@.subrange(
                j,
                j + p@.len(),
            ) != pat@ by {}
            return false;
        }
        i = i + 1;
    }
}

/// Whether `s` begins with `pat`.
pub fn str_starts_with(s: &str, pat: &str) -> (r: bool)
    ensures
        r == starts_with(s@, pat@),
{
    let v = str_chars(s);
    let p = str_chars(pat);
    let n = v.len();
    assert(v@.subrange(0, n as int) == v@);
    range_starts_with(&v, 0, n, &p)
}

/// Whether `c` occurs in `s`.
pub fn str_has_char(s: &str, c: char) -> (r: bool)
    ensures
        r == s@.contains(c),
{
    let v = str_chars(s);
    let k = find_char(&v, c, 0);
    proof {
        lemma_find_from(v@, c, 0);
        if !(k < v.len()) {
            assert forall|j: int| 0 <= j < v@.len() implies v@[j] != c by {}
        }
    }
    k < v.len()
}

pub open spec fn digit_char(d: int) -> char {
    ((d + 48) as u32) as char
}

/// The decimal digits of `n`, without leading zeros.
pub open spec fn decimal(n: nat) -> Seq<char>
    decreases n,
{
    if n < 10 {
        seq![digit_char(n as int)]
    } else {
        decimal(n / 10).push(digit_char((n % 10) as int))
    }
}

fn digit_of(d: u32) -> (c: char)
    requires
        d < 10,
    ensures
        c == digit_char(d as int),
{
    if d == 0 {
        '0'
    } else if d == 1 {
        '1'
    } else if d == 2 {
        '2'
    } else if d == 3 {
        '3'
    } else if d == 4 {
        '4'
    } else if d == 5 {
        '5'
    } else if d == 6 {
        '6'
    } else if d == 7 {
        '7'
    } else if d == 8 {
        '8'
    } else {
        '9'
    }
}

/// Appends the decimal digits of `n` to `s`.
pub fn push_decimal(s: &mut String, n: u32)
    ensures
        final(s)@ == old(s)@ + decimal(n as nat),
    decreases n,
{
    if n >= 10 {
        push_decimal(s, n / 10);
    }
    let c = digit_of(n % 10);
    push_char(s, c);
    proof {
        if n >= 10 {
            assert(old(s)@ + decimal(n as nat) == (old(s)@ + decimal((n / 10) as nat)).push(c));
        } else {
            assert(old(s)@ + decimal(n as nat) == old(s)@.push(c));
        }
    }
}

/// The decimal text of `n` (`u32::to_string`).
pub fn decimal_string(n: u32) -> (res: String)
    ensures
        res@ == decimal(n as nat),
{
    let mut s = String::new();
    push_decimal(&mut s, n);
    assert(s@ == Seq::<char>::empty() + decimal(n as nat));
    assert(Seq::<char>::empty() + decimal(n as nat) == decimal(n as nat));
    s
}

pub open spec fn is_digit(c: char) -> bool {
    '0' <= c <= '9'
}

/// The value of a string of decimal digits.
pub open spec fn digits_value(s: Seq<char>) -> nat
    decreases s.len(),
{
    if s.len() == 0 {
        0
    } else {
        digits_value(s.drop_last()) * 10 + ((s.last() as u32) - 48) as nat
    }
}

/// `s` without the `+` it may begin with.
pub open spec fn unsigned_digits(s: Seq<char>) -> Seq<char> {
    if s.len() > 0 && s[0] == '+' {
        s.drop_first()
    } else {
        s
    }
}

pub open spec fn all_digits(d: Seq<char>) -> bool {
    forall|i: int| 0 <= i < d.len() ==> is_digit(#[trigger] d[i])
}

/// What `str::parse` makes of `s` for an unsigned integer type whose greatest value
/// is `max`: an optional `+`, then at least one decimal digit and nothing else, of a
/// value up to `max`.
pub open spec fn parse_unsigned(s: Seq<char>, max: nat) -> Option<nat> {
    let d = unsigned_digits(s);
    if d.len() > 0 && all_digits(d) && digits_value(d) <= max {
        Some(digits_value(d))
    } else {
        None
    }
}

proof fn lemma_digits_value_mono(s: Seq<char>, i: int)
    requires
        0 <= i <= s.len(),
        forall|k: int| 0 <= k < s.len() ==> is_digit(#[trigger] s[k]),
    ensures
        digits_value(s.take(i)) <= digits_value(s),
    decreases s.len() - i,
{
    if i < s.len() {
        lemma_digits_value_mono(s, i + 1);
        assert(s.take(i + 1).drop_last() == s.take(i));
    } else {
        assert(s.take(i) == s);
    }
}

/// Parses `s` as an unsigned integer of at most `max`, as `str::parse` does for the
/// unsigned type whose greatest value is `max`.
pub fn parse_unsigned_exec(s: &str, max: u32) -> (r: Option<u32>)
    ensures
        r matches Some(v) ==> parse_unsigned(s@, max as nat) == Some(v as nat),
        r is None ==> parse_unsigned(s@, max as nat) is None,
{
    let v = str_chars(s);
    let mut i: usize = 0;
    if v.len() > 0 && v[0] == '+' {
        i = 1;
    }
    let ghost d = v@.skip(i as int);
    assert(d == unsigned_digits(s@));
    if i == v.len() {
        return None;
    }
    let start = i;
    let mut value: u32 = 0;
    while i < v.len()
        invariant
            start <= i <= v.len(),
            d == v@.skip(start as int),
            v@ == s@,
            d == unsigned_digits(s@),
            value as nat == digits_value(d.take(i - start)),
            value <= max,
            forall|k: int| 0 <= k < i - start ==> is_digit(#[trigger] d[k]),
        decreases v.len() - i,
    {
        let c = v[i];
        assert(d[i - start] == c);
        if !('0' <= c && c <= '9') {
            assert(!is_digit(d[i - start]));
            assert(!all_digits(d));
            assert(parse_unsigned(s@, max as nat) is None);
            return None;
        }
        let digit = (c as u32) - 48;
        assert(d.take(i - start + 1).drop_last() == d.take(i - start));
        assert(d.take(i - start + 1).last() == c);
        let next: u64 = (value as u64) * 10 + (digit as u64);
        assert(digits_value(d.take(i - start + 1)) == next as nat);
        if next > max as u64 {
            proof {
                if all_digits(d) {
                    lemma_digits_value_mono(d, i - start + 1);
                    assert(digits_value(d) > max as nat);
                }
                assert(parse_unsigned(s@, max as nat) is None);
            }
            return None;
        }
        value = next as u32;
        i = i + 1;
    }
    assert(d.take(i - start) == d);
    Some(value)
}

proof fn lemma_decimal_digits(n: nat)
    ensures
        decimal(n).len() > 0,
        all_digits(decimal(n)),
        digits_value(decimal(n)) == n,
        decimal(n)[0] != '+',
    decreases n,
{
    if n < 10 {
        let c = digit_char(n as int);
        assert((c as u32) == n + 48);
        assert(decimal(n).drop_last().len() == 0);
        assert(digits_value(decimal(n).drop_last()) == 0);
        assert(decimal(n).last() == c);
    } else {
        lemma_decimal_digits(n / 10);
        let c = digit_char((n % 10) as int);
        assert((c as u32) == (n % 10) + 48);
        let d = decimal(n);
        assert(d.drop_last() == decimal(n / 10));
        assert forall|i: int| 0 <= i < d.len() implies is_digit(#[trigger] d[i]) by {
            if i < d.len() - 1 {
                assert(d[i] == decimal(n / 10)[i]);
            }
        }
        assert(d[0] == decimal(n / 10)[0]);
        assert(d.last() == c);
        assert((n / 10) * 10 + n % 10 == n);
        assert(digits_value(d) == digits_value(d.drop_last()) * 10 + ((d.last() as u32) - 48) as nat);
    }
}

/// A number written in decimal reads back as itself: what the settings dialog shows
/// of a setting parses back to the setting.
pub proof fn law_decimal_parses_back(n: nat, max: nat)
    requires
        n <= max,
    ensures
        parse_unsigned(decimal(n), max) == Some(n),
{
    lemma_decimal_digits(n);
    assert(unsigned_digits(decimal(n)) == decimal(n));
}

} // verus!
