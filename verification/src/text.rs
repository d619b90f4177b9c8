//! Reading text: its whitespace-separated words, and its first line.

use vstd::prelude::*;

verus! {

/// Whether `c` separates words: the characters with the Unicode property
/// `White_Space`.
pub open spec fn is_space(c: char) -> bool {
    let n = c as u32;
    ||| 0x09 <= n <= 0x0d
    ||| n == 0x20
    ||| n == 0x85
    ||| n == 0xa0
    ||| n == 0x1680
    ||| 0x2000 <= n <= 0x200a
    ||| n == 0x2028
    ||| n == 0x2029
    ||| n == 0x202f
    ||| n == 0x205f
    ||| n == 0x3000
}

/// Decides `is_space`.
pub fn is_whitespace(c: char) -> (r: bool)
    ensures
        r == is_space(c),
{
    let n: u32 = c as u32;
    (0x09 <= n && n <= 0x0d) || n == 0x20 || n == 0x85 || n == 0xa0 || n == 0x1680 || (0x2000 <= n
        && n <= 0x200a) || n == 0x2028 || n == 0x2029 || n == 0x202f || n == 0x205f || n == 0x3000
}

/// The characters of `s`, one by one.
pub(crate) fn chars_of(s: &str) -> (v: Vec<char>)
    ensures
        v@ == s@,
{
    let mut v: Vec<char> = Vec::new();
    for c in it: s.chars()
        invariant
            it.seq() == s@,
            v@ == s@.take(it.index() as int),
    {
        v.push(c);
        assert(s@.take(it.index() + 1) == s@.take(it.index() as int).push(c));
    }
    assert(s@.take(s@.len() as int) == s@);
    v
}

/// The words of `s`: its longest runs of characters that are not whitespace,
/// in the order in which they stand.
///
/// Defined by the last character: whitespace adds nothing, any other
/// character starts a new word after whitespace (or at the very start) and
/// otherwise lengthens the last word.
pub open spec fn words(s: Seq<char>) -> Seq<Seq<char>>
    decreases s.len(),
{
    if s.len() == 0 {
        Seq::empty()
    } else {
        let before = words(s.drop_last());
        if is_space(s.last()) {
            before
        } else if s.len() == 1 || is_space(s[s.len() - 2]) {
            before.push(seq![s.last()])
        } else {
            before.drop_last().push(before.last().push(s.last()))
        }
    }
}

/// Text that ends in a character other than whitespace has a last word.
pub proof fn lemma_words_nonempty(s: Seq<char>)
    requires
        s.len() > 0,
        !is_space(s.last()),
    ensures
        words(s).len() > 0,
    decreases s.len(),
{
    if !(s.len() == 1 || is_space(s[s.len() - 2])) {
        lemma_words_nonempty(s.drop_last());
    }
}

/// Text of nothing but whitespace has no words.
pub proof fn lemma_words_of_blank(s: Seq<char>)
    requires
        forall|i: int| 0 <= i < s.len() ==> is_space(s[i]),
    ensures
        words(s).len() == 0,
    decreases s.len(),
{
    if s.len() > 0 {
        lemma_words_of_blank(s.drop_last());
    }
}

/// Text without whitespace is one word, unless it is empty.
pub proof fn lemma_words_of_word(s: Seq<char>)
    requires
        s.len() > 0,
        forall|i: int| 0 <= i < s.len() ==> !is_space(s[i]),
    ensures
        words(s) == seq![s],
    decreases s.len(),
{
    if s.len() == 1 {
        assert(words(s.drop_last()).len() == 0);
        assert(seq![s.last()] == s);
    } else {
        lemma_words_of_word(s.drop_last());
        assert(s.drop_last().push(s.last()) == s);
    }
}

/// The words of two texts with whitespace between them are the words of the
/// first followed by the words of the second.
pub proof fn lemma_words_around_space(front: Seq<char>, space: char, back: Seq<char>)
    requires
        is_space(space),
    ensures
        words(front + seq![space] + back) == words(front) + words(back),
    decreases back.len(),
{
    let s = front + seq![space] + back;
    if back.len() == 0 {
        assert(s.drop_last() == front);
        assert(words(front) + words(back) == words(front));
    } else {
        let shorter = back.drop_last();
        assert(s.drop_last() == front + seq![space] + shorter);
        assert(s.last() == back.last());
        lemma_words_around_space(front, space, shorter);
        if is_space(back.last()) {
        } else if back.len() == 1 {
            assert(s[s.len() - 2] == space);
            assert(words(shorter).len() == 0);
            assert(words(front).push(seq![back.last()]) == words(front) + seq![seq![back.last()]]);
        } else {
            assert(s[s.len() - 2] == back[back.len() - 2]);
            if is_space(back[back.len() - 2]) {
                assert((words(front) + words(shorter)).push(seq![back.last()]) == words(front)
                    + words(shorter).push(seq![back.last()]));
            } else {
                lemma_words_nonempty(shorter);
                let before = words(front) + words(shorter);
                assert(before.last() == words(shorter).last());
                assert(before.drop_last() == words(front) + words(shorter).drop_last());
                assert(before.drop_last().push(before.last().push(back.last())) == words(front)
                    + words(shorter).drop_last().push(words(shorter).last().push(back.last())));
            }
        }
    }
}

/// Every word holds at least one character and no whitespace.
pub proof fn lemma_words_hold_no_space(s: Seq<char>, i: int)
    requires
        0 <= i < words(s).len(),
    ensures
        words(s)[i].len() > 0,
        forall|j: int| 0 <= j < words(s)[i].len() ==> !is_space(#[trigger] words(s)[i][j]),
    decreases s.len(),
{
    let before = words(s.drop_last());
    if is_space(s.last()) {
        lemma_words_hold_no_space(s.drop_last(), i);
    } else if s.len() == 1 || is_space(s[s.len() - 2]) {
        if i < before.len() {
            lemma_words_hold_no_space(s.drop_last(), i);
        }
    } else {
        lemma_words_nonempty(s.drop_last());
        if i < before.len() - 1 {
            lemma_words_hold_no_space(s.drop_last(), i);
        } else {
            lemma_words_hold_no_space(s.drop_last(), before.len() - 1);
        }
    }
}

/// Splits `s` into its words.
pub fn split_whitespace(s: &str) -> (r: Vec<String>)
    ensures
        r.deep_view() == words(s@),
{
    let chars = chars_of(s);
    let n: usize = chars.len();
    let mut r: Vec<String> = Vec::new();
    let mut start: usize = 0;
    let mut in_word: bool = false;
    let mut i: usize = 0;
    while i < n
        invariant
            chars@ == s@,
            n == s@.len(),
            i <= n,
            in_word ==> start < i && !is_space(s@[i - 1]),
            !in_word ==> i == 0 || is_space(s@[i - 1]),
            in_word ==> words(s@.take(i as int)) == r.deep_view().push(
                s@.subrange(start as int, i as int),
            ),
            !in_word ==> words(s@.take(i as int)) == r.deep_view(),
        decreases n - i,
    {
        let c = chars[i];
        let ghost before = s@.take(i as int);
        let ghost now = s@.take(i + 1);
        let ghost old_r = r.deep_view();
        assert(now.drop_last() == before);
        assert(now.last() == c);
        if is_whitespace(c) {
            if in_word {
                r.push(s.substring_char(start, i).to_owned());
                assert(r.deep_view() == old_r.push(s@.subrange(start as int, i as int)));
                in_word = false;
            }
        } else if !in_word {
            start = i;
            in_word = true;
            assert(s@.subrange(i as int, i + 1) == seq![c]);
        } else {
            assert(s@.subrange(start as int, i + 1) == s@.subrange(start as int, i as int).push(c));
            assert(words(before).drop_last() == old_r);
        }
        i += 1;
    }
    assert(s@.take(n as int) == s@);
    if in_word {
        let ghost old_r = r.deep_view();
        r.push(s.substring_char(start, n).to_owned());
        assert(r.deep_view() == old_r.push(s@.subrange(start as int, n as int)));
    }
    r
}

/// The number of characters before the first line feed of `s`, or the
/// length of `s` if it holds none.
pub open spec fn line_len(s: Seq<char>) -> nat
    decreases s.len(),
{
    if s.len() == 0 || s[0] == '\n' {
        0
    } else {
        1 + line_len(s.skip(1))
    }
}

/// The first line of `s`, without its line ending: a line feed, or a
/// carriage return and a line feed. Empty text has no line.
pub open spec fn first_line(s: Seq<char>) -> Option<Seq<char>> {
    let n = line_len(s) as int;
    if s.len() == 0 {
        None
    } else if 0 < n < s.len() && s[n - 1] == '\r' {
        Some(s.take(n - 1))
    } else {
        Some(s.take(n))
    }
}

/// `line_len` is the least index that holds a line feed, or the length of
/// the text.
pub proof fn lemma_line_len(s: Seq<char>)
    ensures
        line_len(s) <= s.len(),
        forall|j: int| 0 <= j < line_len(s) ==> s[j] != '\n',
        line_len(s) < s.len() ==> s[line_len(s) as int] == '\n',
    decreases s.len(),
{
    if !(s.len() == 0 || s[0] == '\n') {
        let rest = s.skip(1);
        lemma_line_len(rest);
        assert forall|j: int| 0 <= j < line_len(s) implies s[j] != '\n' by {
            if j > 0 {
                assert(rest[j - 1] == s[j]);
            }
        }
        if line_len(s) < s.len() {
            assert(rest[line_len(rest) as int] == s[line_len(s) as int]);
        }
    }
}

/// An index that holds the first line feed, or the length of text without
/// one, is `line_len`.
pub proof fn lemma_line_len_is(s: Seq<char>, n: int)
    requires
        0 <= n <= s.len(),
        forall|j: int| 0 <= j < n ==> s[j] != '\n',
        n < s.len() ==> s[n] == '\n',
    ensures
        line_len(s) == n,
{
    lemma_line_len(s);
    let m = line_len(s) as int;
    if m < n {
        assert(s[m] == '\n');
    } else if n < m {
        assert(s[n] != '\n');
    }
}

/// Reads the first line of `s`.
pub fn read_first_line(s: &str) -> (r: Option<String>)
    ensures
        match r {
            Some(line) => first_line(s@) == Some(line@),
            None => first_line(s@).is_none(),
        },
{
    let chars = chars_of(s);
    let len: usize = chars.len();
    if len == 0 {
        return None;
    }
    let mut n: usize = 0;
    while n < len && chars[n] != '\n'
        invariant
            chars@ == s@,
            len == s@.len(),
            n <= len,
            forall|j: int| 0 <= j < n ==> s@[j] != '\n',
        decreases len - n,
    {
        n += 1;
    }
    proof {
        lemma_line_len_is(s@, n as int);
    }
    let end: usize = if 0 < n && n < len && chars[n - 1] == '\r' {
        n - 1
    } else {
        n
    };
    assert(s@.subrange(0, end as int) == s@.take(end as int));
    Some(s.substring_char(0, end).to_owned())
}

} // verus!
