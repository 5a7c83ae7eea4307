//! Text as sequences of characters: searching, literal replacement, lines.
//!
//! Contracts speak of `Seq<char>`, the view of `str` and `String`. The
//! executable functions work on `Vec<char>`, which gives constant-time access
//! to every character.
use vstd::prelude::*;
use vstd::string::*;
use vstd::utf8::{encode_utf8, valid_utf8};

verus! {

/// The character is white space: it has the Unicode property `White_Space`.
/// These are the tab, the line feed, the vertical tab, the form feed, the
/// carriage return, the space, the next-line control, the no-break space,
/// the ogham space mark, the spaces from the en quad to the hair space, the
/// line and paragraph separators, the narrow no-break space, the medium
/// mathematical space and the ideographic space.
pub open spec fn is_white_space(c: char) -> bool {
    let code = c as u32;
    ||| 0x9 <= code <= 0xd
    ||| code == 0x20
    ||| code == 0x85
    ||| code == 0xa0
    ||| code == 0x1680
    ||| 0x2000 <= code <= 0x200a
    ||| code == 0x2028
    ||| code == 0x2029
    ||| code == 0x202f
    ||| code == 0x205f
    ||| code == 0x3000
}

/// `String::push` of the standard library appends one character to the end
/// of the string and leaves the rest as it was.
pub assume_specification[ String::push ](s: &mut String, ch: char)
    ensures
        final(s)@ == old(s)@.push(ch),
;

/// `std::str::from_utf8` of the standard library: it gives a string slice
/// over the bytes where they are valid UTF-8, and fails where they are not.
#[verifier::external_body]
pub(crate) fn utf8_text(bytes: &Vec<u8>) -> (r: Option<&str>)
    ensures
        r is Some <==> valid_utf8(bytes@),
        r is Some ==> encode_utf8(r->0@) == bytes@,
{
    match std::str::from_utf8(bytes) {
        Ok(text) => Some(text),
        Err(_) => None,
    }
}

/// `pat` stands in `s` at index `i`.
pub open spec fn occurs_at(s: Seq<char>, pat: Seq<char>, i: int) -> bool {
    &&& 0 <= i
    &&& i + pat.len() <= s.len()
    &&& s.subrange(i, i + pat.len()) == pat
}

/// `s` begins with `pat`.
pub open spec fn starts_with(s: Seq<char>, pat: Seq<char>) -> bool {
    occurs_at(s, pat, 0)
}

/// `s` ends with `pat`.
pub open spec fn ends_with(s: Seq<char>, pat: Seq<char>) -> bool {
    occurs_at(s, pat, s.len() - pat.len())
}

/// Every character of `s` is white space; the empty sequence is blank.
pub open spec fn is_blank(s: Seq<char>) -> bool {
    forall|i: int| 0 <= i < s.len() ==> is_white_space(#[trigger] s[i])
}

/// The part of `s` from index `i` on, with every occurrence of `from`
/// replaced by `to`. Occurrences are taken from left to right and do not
/// overlap. An empty `from` matches before every character and at the end.
pub open spec fn replace_from(s: Seq<char>, from: Seq<char>, to: Seq<char>, i: int) -> Seq<char>
    decreases s.len() - i,
{
    if i < 0 || i >= s.len() {
        if from.len() == 0 {
            to
        } else {
            Seq::empty()
        }
    } else if from.len() == 0 {
        to + seq![s[i]] + replace_from(s, from, to, i + 1)
    } else if occurs_at(s, from, i) {
        to + replace_from(s, from, to, i + from.len())
    } else {
        seq![s[i]] + replace_from(s, from, to, i + 1)
    }
}

/// `s` with every occurrence of `from` replaced by `to`.
pub open spec fn replace_all(s: Seq<char>, from: Seq<char>, to: Seq<char>) -> Seq<char> {
    replace_from(s, from, to, 0)
}

/// Index of the first `c` in `s` at or after `start`, or the length of `s`
/// where there is none.
pub open spec fn index_from(s: Seq<char>, c: char, start: int) -> int
    decreases s.len() - start,
{
    if start < 0 || start >= s.len() {
        s.len() as int
    } else if s[start] == c {
        start
    } else {
        index_from(s, c, start + 1)
    }
}

/// Index of the first line feed in `s` at or after `start`, or the length
/// of `s` where there is none.
pub open spec fn line_end(s: Seq<char>, start: int) -> int {
    index_from(s, '\n', start)
}

/// Index of the last `c` in `s` before index `end`, or -1 where there is
/// none.
pub open spec fn last_index_before(s: Seq<char>, c: char, end: int) -> int
    decreases end,
{
    if end <= 0 || end > s.len() {
        -1
    } else if s[end - 1] == c {
        end - 1
    } else {
        last_index_before(s, c, end - 1)
    }
}

/// Index of the last `c` in `s`, or -1 where there is none.
pub open spec fn last_index_of(s: Seq<char>, c: char) -> int {
    last_index_before(s, c, s.len() as int)
}

/// The pieces of `s` between its line feeds, in order. A text without a line
/// feed is one line; a text that ends in a line feed has an empty last line.
pub open spec fn split_lines(s: Seq<char>) -> Seq<Seq<char>>
    decreases s.len(),
{
    if s.len() == 0 {
        seq![Seq::empty()]
    } else {
        let before = split_lines(s.drop_last());
        if s.last() == '\n' {
            before.push(Seq::empty())
        } else {
            before.drop_last().push(before.last().push(s.last()))
        }
    }
}

/// The parts in order with `sep` between each two neighbours.
pub open spec fn join(parts: Seq<Seq<char>>, sep: Seq<char>) -> Seq<char>
    decreases parts.len(),
{
    if parts.len() == 0 {
        Seq::empty()
    } else if parts.len() == 1 {
        parts[0]
    } else {
        join(parts.drop_last(), sep) + sep + parts.last()
    }
}

/// The parts in order, each followed by `glue`.
pub open spec fn glue_all(parts: Seq<Seq<char>>, glue: char) -> Seq<char>
    decreases parts.len(),
{
    if parts.len() == 0 {
        Seq::empty()
    } else {
        glue_all(parts.drop_last(), glue) + parts.last().push(glue)
    }
}

/// The view of a text that may be missing.
pub open spec fn text_view(text: Option<String>) -> Option<Seq<char>> {
    match text {
        Some(t) => Some(t@),
        None => None,
    }
}

/// The views of the strings of `v`, in order.
pub open spec fn views(v: Seq<String>) -> Seq<Seq<char>> {
    v.map_values(|s: String| s@)
}

/// `index_from` lies between `start` and the end of the text, no `c` stands
/// before it, and one stands at it unless it is the end.
pub proof fn lemma_index_from(s: Seq<char>, c: char, start: int)
    requires
        0 <= start <= s.len(),
    ensures
        start <= index_from(s, c, start) <= s.len(),
        index_from(s, c, start) < s.len() ==> s[index_from(s, c, start)] == c,
        forall|k: int| start <= k < index_from(s, c, start) ==> s[k] != c,
    decreases s.len() - start,
{
    if start < s.len() && s[start] != c {
        lemma_index_from(s, c, start + 1);
    }
}

/// `last_index_before` lies before `end`, `c` stands at it unless it is -1,
/// and no `c` stands between it and `end`.
pub proof fn lemma_last_index_before(s: Seq<char>, c: char, end: int)
    requires
        0 <= end <= s.len(),
    ensures
        -1 <= last_index_before(s, c, end) < end,
        last_index_before(s, c, end) >= 0 ==> s[last_index_before(s, c, end)] == c,
        forall|k: int| last_index_before(s, c, end) < k < end ==> s[k] != c,
    decreases end,
{
    if end > 0 && s[end - 1] != c {
        lemma_last_index_before(s, c, end - 1);
    }
}

/// Gluing goes part by part from the front: the first part and the glue,
/// then the rest.
pub proof fn lemma_glue_all_from_the_front(parts: Seq<Seq<char>>, glue: char)
    requires
        parts.len() > 0,
    ensures
        glue_all(parts, glue) == parts.first().push(glue) + glue_all(parts.drop_first(), glue),
    decreases parts.len(),
{
    if parts.len() == 1 {
        assert(parts.drop_last().len() == 0);
        assert(parts.drop_first().len() == 0);
        assert(glue_all(parts.drop_last(), glue) == Seq::<char>::empty());
        assert(glue_all(parts, glue) =~= parts.first().push(glue) + Seq::<char>::empty());
    } else {
        let front = parts.drop_last();
        lemma_glue_all_from_the_front(front, glue);
        assert(front.drop_first() == parts.drop_first().drop_last());
        assert(front.first() == parts.first());
        assert(parts.drop_first().last() == parts.last());
        assert(glue_all(parts, glue) == (parts.first().push(glue) + glue_all(
            front.drop_first(),
            glue,
        )) + parts.last().push(glue));
        assert(glue_all(parts.drop_first(), glue) == glue_all(front.drop_first(), glue)
            + parts.last().push(glue));
    }
}

/// A text without an occurrence of `from` is left as it is.
pub proof fn lemma_replace_without_occurrence(s: Seq<char>, from: Seq<char>, to: Seq<char>)
    requires
        from.len() > 0,
        forall|i: int| !occurs_at(s, from, i),
    ensures
        replace_all(s, from, to) == s,
{
    lemma_replace_tail(s, from, to, 0);
}

/// Without an occurrence of `from` at or after `i`, what follows `i` is left
/// as it is.
proof fn lemma_replace_tail(s: Seq<char>, from: Seq<char>, to: Seq<char>, i: int)
    requires
        from.len() > 0,
        0 <= i <= s.len(),
        forall|k: int| i <= k ==> !occurs_at(s, from, k),
    ensures
        replace_from(s, from, to, i) == s.skip(i),
    decreases s.len() - i,
{
    if i < s.len() {
        lemma_replace_tail(s, from, to, i + 1);
    }
}

/// Replacing every occurrence of a text by itself changes nothing.
pub proof fn lemma_replace_by_itself(s: Seq<char>, from: Seq<char>)
    requires
        from.len() > 0,
    ensures
        replace_all(s, from, from) == s,
{
    lemma_replace_by_itself_tail(s, from, 0);
}

/// Replacing every occurrence of a text by itself changes nothing of what
/// follows `i`.
proof fn lemma_replace_by_itself_tail(s: Seq<char>, from: Seq<char>, i: int)
    requires
        from.len() > 0,
        0 <= i <= s.len(),
    ensures
        replace_from(s, from, from, i) == s.skip(i),
    decreases s.len() - i,
{
    if i < s.len() {
        if occurs_at(s, from, i) {
            lemma_replace_by_itself_tail(s, from, i + from.len());
        } else {
            lemma_replace_by_itself_tail(s, from, i + 1);
        }
    }
}

/// The lines of a text hold no line feed, and joined with line feeds they
/// give the text back.
pub proof fn lemma_split_lines_joins_back(s: Seq<char>)
    ensures
        split_lines(s).len() > 0,
        join(split_lines(s), seq!['\n']) == s,
        forall|i: int, k: int|
            0 <= i < split_lines(s).len() && 0 <= k < split_lines(s)[i].len()
                ==> #[trigger] split_lines(s)[i][k] != '\n',
    decreases s.len(),
{
    let sep = seq!['\n'];
    if s.len() > 0 {
        let before = split_lines(s.drop_last());
        lemma_split_lines_joins_back(s.drop_last());
        let lines = split_lines(s);
        if s.last() == '\n' {
            assert(lines.drop_last() == before);
        } else {
            let grown = before.last().push(s.last());
            assert(lines.drop_last() == before.drop_last());
            if before.len() > 1 {
                assert(join(before.drop_last(), sep) + sep + grown == (join(before.drop_last(), sep)
                    + sep + before.last()).push(s.last()));
            }
        }
    }
}

/// The characters of `s`.
pub fn chars_of(s: &str) -> (v: Vec<char>)
    ensures
        v@ == s@,
{
    let mut v: Vec<char> = Vec::new();
    for c in it: s.chars()
        invariant
            v@ == it.seq().take(it.index()),
            it.seq() == s@,
    {
        v.push(c);
    }
    v
}

/// Appends `chars[from..to]` to `out`.
pub(crate) fn push_range(out: &mut String, chars: &Vec<char>, from: usize, to: usize)
    requires
        from <= to <= chars.len(),
    ensures
        final(out)@ == old(out)@ + chars@.subrange(from as int, to as int),
{
    let mut i: usize = from;
    while i < to
        invariant
            from <= i <= to <= chars.len(),
            out@ == old(out)@ + chars@.subrange(from as int, i as int),
        decreases to - i,
    {
        out.push(chars[i]);
        i = i + 1;
    }
}

/// The string made of `chars`.
pub fn string_of(chars: &Vec<char>) -> (s: String)
    ensures
        s@ == chars@,
{
    let mut s = String::new();
    push_range(&mut s, chars, 0, chars.len());
    s
}

/// Whether the character is white space.
pub fn is_white_space_char(c: char) -> (r: bool)
    ensures
        r == is_white_space(c),
{
    let code: u32 = c as u32;
    (0x9 <= code && code <= 0xd) || code == 0x20 || code == 0x85 || code == 0xa0 || code == 0x1680
        || (0x2000 <= code && code <= 0x200a) || code == 0x2028 || code == 0x2029 || code == 0x202f
        || code == 0x205f || code == 0x3000
}

/// Whether `pat` stands in `s` at index `i`.
pub fn matches_at(s: &Vec<char>, pat: &Vec<char>, i: usize) -> (r: bool)
    ensures
        r == occurs_at(s@, pat@, i as int),
{
    if i > s.len() || pat.len() > s.len() - i {
        return false;
    }
    let mut k: usize = 0;
    while k < pat.len()
        invariant
            k <= pat.len(),
            i + pat.len() <= s.len(),
            forall|j: int| 0 <= j < k ==> s@[i + j] == pat@[j],
        decreases pat.len() - k,
    {
        if s[i + k] != pat[k] {
            return false;
        }
        k = k + 1;
    }
    assert(s@.subrange(i as int, i + pat.len()) =~= pat@);
    true
}

/// Whether the two sequences hold the same characters.
pub fn same_chars(a: &Vec<char>, b: &Vec<char>) -> (r: bool)
    ensures
        r == (a@ == b@),
{
    if a.len() != b.len() {
        return false;
    }
    let r = matches_at(a, b, 0);
    assert(a@.subrange(0, a.len() as int) == a@);
    r
}

/// Whether `chars[from..to]` holds white space only.
pub(crate) fn blank_range(chars: &Vec<char>, from: usize, to: usize) -> (r: bool)
    requires
        from <= to <= chars.len(),
    ensures
        r == is_blank(chars@.subrange(from as int, to as int)),
{
    let mut i: usize = from;
    while i < to
        invariant
            from <= i <= to <= chars.len(),
            is_blank(chars@.subrange(from as int, i as int)),
        decreases to - i,
    {
        if !is_white_space_char(chars[i]) {
            assert(chars@.subrange(from as int, to as int)[i - from] == chars@[i as int]);
            return false;
        }
        assert forall|k: int| 0 <= k < i + 1 - from implies is_white_space(
            #[trigger] chars@.subrange(from as int, i + 1)[k],
        ) by {}
        i = i + 1;
    }
    true
}

/// Index of the first `c` at or after `start`, or the length of the text.
pub(crate) fn find_from(chars: &Vec<char>, c: char, start: usize) -> (e: usize)
    requires
        start <= chars.len(),
    ensures
        e == index_from(chars@, c, start as int),
        start <= e <= chars.len(),
{
    let mut e: usize = start;
    while e < chars.len() && chars[e] != c
        invariant
            start <= e <= chars.len(),
            index_from(chars@, c, start as int) == index_from(chars@, c, e as int),
        decreases chars.len() - e,
    {
        e = e + 1;
    }
    e
}

/// Index of the last `c` in the text, if there is one.
pub fn find_last(chars: &Vec<char>, c: char) -> (r: Option<usize>)
    ensures
        match r {
            Some(i) => i == last_index_of(chars@, c) && i < chars.len() && chars@[i as int] == c,
            None => last_index_of(chars@, c) == -1,
        },
{
    let mut end: usize = chars.len();
    while end > 0
        invariant
            end <= chars.len(),
            last_index_of(chars@, c) == last_index_before(chars@, c, end as int),
        decreases end,
    {
        if chars[end - 1] == c {
            return Some(end - 1);
        }
        end = end - 1;
    }
    None
}

/// Appends the characters of `src` to `out`.
pub fn append_chars(out: &mut Vec<char>, src: &Vec<char>)
    ensures
        final(out)@ == old(out)@ + src@,
{
    let mut i: usize = 0;
    while i < src.len()
        invariant
            i <= src.len(),
            out@ == old(out)@ + src@.take(i as int),
        decreases src.len() - i,
    {
        out.push(src[i]);
        i = i + 1;
    }
}

/// `s` with every occurrence of `from` replaced by `to`.
pub fn replace_chars(s: &Vec<char>, from: &Vec<char>, to: &Vec<char>) -> (out: Vec<char>)
    ensures
        out@ == replace_all(s@, from@, to@),
{
    let mut out: Vec<char> = Vec::new();
    let mut i: usize = 0;
    if from.len() == 0 {
        while i < s.len()
            invariant
                i <= s.len(),
                from@.len() == 0,
                out@ + replace_from(s@, from@, to@, i as int) == replace_all(s@, from@, to@),
            decreases s.len() - i,
        {
            append_chars(&mut out, to);
            out.push(s[i]);
            i = i + 1;
        }
        append_chars(&mut out, to);
        return out;
    }
    while i < s.len()
        invariant
            i <= s.len(),
            from@.len() > 0,
            out@ + replace_from(s@, from@, to@, i as int) == replace_all(s@, from@, to@),
        decreases s.len() - i,
    {
        if matches_at(s, from, i) {
            append_chars(&mut out, to);
            i = i + from.len();
        } else {
            out.push(s[i]);
            i = i + 1;
        }
    }
    out
}

/// The lines of `s`, as `str::split` gives them for a line feed.
pub fn lines_of(s: &str) -> (lines: Vec<String>)
    ensures
        views(lines@) == split_lines(s@),
{
    let chars = chars_of(s);
    let mut lines: Vec<String> = Vec::new();
    let mut line = String::new();
    let mut i: usize = 0;
    while i < chars.len()
        invariant
            i <= chars.len(),
            views(lines@).push(line@) == split_lines(chars@.take(i as int)),
        decreases chars.len() - i,
    {
        assert(chars@.take(i + 1).drop_last() == chars@.take(i as int));
        if chars[i] == '\n' {
            lines.push(line);
            line = String::new();
        } else {
            line.push(chars[i]);
        }
        i = i + 1;
    }
    assert(chars@.take(chars.len() as int) == chars@);
    lines.push(line);
    lines
}

} // verus!
