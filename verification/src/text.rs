//! Characters, lines and whitespace-separated fields of a text.

use vstd::prelude::*;

verus! {

/// Whether `c` separates fields: the characters that Unicode gives the
/// property `White_Space`.
pub open spec fn is_space(c: char) -> bool {
    ||| ('\u{9}' <= c && c <= '\u{d}')
    ||| c == ' '
    ||| c == '\u{85}'
    ||| c == '\u{a0}'
    ||| c == '\u{1680}'
    ||| ('\u{2000}' <= c && c <= '\u{200a}')
    ||| c == '\u{2028}'
    ||| c == '\u{2029}'
    ||| c == '\u{202f}'
    ||| c == '\u{205f}'
    ||| c == '\u{3000}'
}

/// Whether `c` separates fields.
pub fn char_is_space(c: char) -> (space: bool)
    ensures
        space == is_space(c),
{
    ('\u{9}' <= c && c <= '\u{d}') || c == ' ' || c == '\u{85}' || c == '\u{a0}' || c
        == '\u{1680}' || ('\u{2000}' <= c && c <= '\u{200a}') || c == '\u{2028}' || c
        == '\u{2029}' || c == '\u{202f}' || c == '\u{205f}' || c == '\u{3000}'
}

/// The characters of `text`, one by one.
pub fn chars_of(text: &str) -> (chars: Vec<char>)
    ensures
        chars@ == text@,
{
    let mut chars: Vec<char> = Vec::new();
    for c in it: text.chars()
        invariant
            it.seq() == text@,
            chars@ == text@.take(it.index()),
    {
        chars.push(c);
    }
    chars
}

/// How many characters of `s` stand before its first line feed; its length
/// where it has none.
pub open spec fn line_len(s: Seq<char>) -> nat
    decreases s.len(),
{
    if s.len() == 0 || s[0] == '\n' {
        0
    } else {
        1 + line_len(s.drop_first())
    }
}

/// The lines of `s`. A line ends at a line feed, which is not part of it; the
/// last line needs none, and no empty line follows a final line feed.
///
/// A carriage return before the line feed stays in the line: it is white
/// space, so it never reaches a field.
pub open spec fn lines_of(s: Seq<char>) -> Seq<Seq<char>>
    decreases s.len(),
{
    if s.len() == 0 {
        Seq::empty()
    } else {
        let n = line_len(s) as int;
        if n >= s.len() {
            seq![s]
        } else {
            seq![s.take(n)] + lines_of(s.skip(n + 1))
        }
    }
}

/// How many characters of `s` stand before its first white space; its length
/// where it has none.
pub open spec fn word_len(s: Seq<char>) -> nat
    decreases s.len(),
{
    if s.len() == 0 || is_space(s[0]) {
        0
    } else {
        1 + word_len(s.drop_first())
    }
}

/// The fields of `s`: its maximal runs of characters that are not white
/// space, from left to right.
pub open spec fn fields_of(s: Seq<char>) -> Seq<Seq<char>>
    decreases s.len(),
{
    if s.len() == 0 {
        Seq::empty()
    } else if is_space(s[0]) {
        fields_of(s.drop_first())
    } else {
        let n = 1 + word_len(s.drop_first()) as int;
        if n >= s.len() {
            seq![s]
        } else {
            seq![s.take(n)] + fields_of(s.skip(n))
        }
    }
}

/// The pieces of `chars` that the half-open ranges `spans` cut out.
pub open spec fn spans_in(chars: Seq<char>, spans: Seq<(usize, usize)>) -> Seq<Seq<char>> {
    spans.map_values(|span: (usize, usize)| chars.subrange(span.0 as int, span.1 as int))
}

/// A line stops at the first line feed and holds none.
pub proof fn lemma_line_len(s: Seq<char>)
    ensures
        line_len(s) <= s.len(),
        forall|i: int| 0 <= i < line_len(s) ==> s[i] != '\n',
        line_len(s) < s.len() ==> s[line_len(s) as int] == '\n',
    decreases s.len(),
{
    if s.len() == 0 || s[0] == '\n' {
    } else {
        let rest = s.drop_first();
        lemma_line_len(rest);
        assert forall|i: int| 0 <= i < line_len(s) implies s[i] != '\n' by {
            if i > 0 {
                assert(s[i] == rest[i - 1]);
            }
        }
        assert(line_len(s) < s.len() ==> s[line_len(s) as int] == rest[line_len(rest) as int]);
    }
}

/// A word stops at the first white space and holds none.
pub proof fn lemma_word_len(s: Seq<char>)
    ensures
        word_len(s) <= s.len(),
        forall|i: int| 0 <= i < word_len(s) ==> !is_space(s[i]),
        word_len(s) < s.len() ==> is_space(s[word_len(s) as int]),
    decreases s.len(),
{
    if s.len() == 0 || is_space(s[0]) {
    } else {
        let rest = s.drop_first();
        lemma_word_len(rest);
        assert forall|i: int| 0 <= i < word_len(s) implies !is_space(s[i]) by {
            if i > 0 {
                assert(s[i] == rest[i - 1]);
            }
        }
        assert(word_len(s) < s.len() ==> s[word_len(s) as int] == rest[word_len(rest) as int]);
    }
}

/// The position at which the line that starts at `from` ends: that of the
/// next line feed, or the end of `chars`.
pub fn line_end(chars: &[char], from: usize) -> (end: usize)
    requires
        from <= chars.len(),
    ensures
        end == from + line_len(chars@.skip(from as int)),
        from <= end <= chars.len(),
        forall|i: int| from <= i < end ==> chars[i] != '\n',
        end < chars.len() ==> chars[end as int] == '\n',
{
    proof {
        let rest = chars@.skip(from as int);
        lemma_line_len(rest);
        assert forall|i: int| from <= i < from + line_len(rest) implies chars[i] != '\n' by {
            assert(chars[i] == rest[i - from]);
        }
    }
    let mut end = from;
    while end < chars.len() && chars[end] != '\n'
        invariant
            from <= end <= chars.len(),
            line_len(chars@.skip(from as int)) == (end - from) + line_len(chars@.skip(end as int)),
        decreases chars.len() - end,
    {
        assert(chars@.skip(end as int).drop_first() == chars@.skip(end + 1));
        end += 1;
    }
    end
}

/// The position at which the word that starts at `from` ends: that of the
/// next white space, or the end of `chars`.
pub fn word_end(chars: &[char], from: usize) -> (end: usize)
    requires
        from <= chars.len(),
    ensures
        end == from + word_len(chars@.skip(from as int)),
        from <= end <= chars.len(),
        forall|i: int| from <= i < end ==> !is_space(chars[i]),
        end < chars.len() ==> is_space(chars[end as int]),
{
    proof {
        let rest = chars@.skip(from as int);
        lemma_word_len(rest);
        assert forall|i: int| from <= i < from + word_len(rest) implies !is_space(chars[i]) by {
            assert(chars[i] == rest[i - from]);
        }
    }
    let mut end = from;
    while end < chars.len() && !char_is_space(chars[end])
        invariant
            from <= end <= chars.len(),
            word_len(chars@.skip(from as int)) == (end - from) + word_len(chars@.skip(end as int)),
        decreases chars.len() - end,
    {
        assert(chars@.skip(end as int).drop_first() == chars@.skip(end + 1));
        end += 1;
    }
    end
}

/// Where the fields of `line` start and end, from left to right.
pub fn field_spans(line: &[char]) -> (spans: Vec<(usize, usize)>)
    ensures
        spans_in(line@, spans@) == fields_of(line@),
        forall|k: int|
            0 <= k < spans.len() ==> (#[trigger] spans@[k]).0 < spans@[k].1 <= line.len(),
{
    let mut spans: Vec<(usize, usize)> = Vec::new();
    let mut at: usize = 0;
    proof {
        assert(line@.skip(0) == line@);
        assert(spans_in(line@, spans@) + fields_of(line@) == fields_of(line@));
    }
    while at < line.len()
        invariant
            at <= line.len(),
            fields_of(line@) == spans_in(line@, spans@) + fields_of(line@.skip(at as int)),
            forall|k: int|
            0 <= k < spans.len() ==> (#[trigger] spans@[k]).0 < spans@[k].1 <= line.len(),
        decreases line.len() - at,
    {
        let ghost rest = line@.skip(at as int);
        if char_is_space(line[at]) {
            assert(rest.drop_first() == line@.skip(at + 1));
            at += 1;
        } else {
            let stop = word_end(line, at + 1);
            proof {
                let n = stop - at;
                let ghost before = spans@;
                assert(rest.drop_first() == line@.skip(at + 1));
                assert(rest.take(n) == line@.subrange(at as int, stop as int));
                assert(rest.skip(n) == line@.skip(stop as int));
                if n >= rest.len() {
                    assert(rest.take(n) == rest);
                    assert(fields_of(rest.skip(n)) == Seq::<Seq<char>>::empty());
                }
                assert(fields_of(rest) == seq![rest.take(n)] + fields_of(rest.skip(n)));
                assert(spans_in(line@, before.push((at, stop))) == spans_in(line@, before)
                    + seq![rest.take(n)]);
            }
            spans.push((at, stop));
            at = stop;
        }
    }
    proof {
        assert(fields_of(line@.skip(at as int)) == Seq::<Seq<char>>::empty());
    }
    spans
}

/// Whether `needle` stands in `hay` from position `at` on.
pub open spec fn occurs_at(hay: Seq<char>, needle: Seq<char>, at: int) -> bool {
    &&& 0 <= at
    &&& at + needle.len() <= hay.len()
    &&& hay.subrange(at, at + needle.len()) == needle
}

/// Whether `needle` stands somewhere in `hay`, character for character.
pub open spec fn contains_text(hay: Seq<char>, needle: Seq<char>) -> bool {
    exists|at: int| occurs_at(hay, needle, at)
}

/// Whether `needle` stands in `hay` from position `at` on.
pub fn matches_at(hay: &[char], needle: &[char], at: usize) -> (found: bool)
    requires
        at + needle.len() <= hay.len(),
    ensures
        found == occurs_at(hay@, needle@, at as int),
{
    let mut k: usize = 0;
    while k < needle.len()
        invariant
            k <= needle.len(),
            at + needle.len() <= hay.len(),
            forall|j: int| 0 <= j < k ==> hay[at + j] == needle[j],
        decreases needle.len() - k,
    {
        if hay[at + k] != needle[k] {
            assert(hay@.subrange(at as int, at + needle.len())[k as int] != needle@[k as int]);
            return false;
        }
        k += 1;
    }
    assert(hay@.subrange(at as int, at + needle.len()) =~= needle@);
    true
}

/// Whether `needle` stands somewhere in `hay`, character for character.
pub fn contains(hay: &[char], needle: &[char]) -> (found: bool)
    ensures
        found == contains_text(hay@, needle@),
{
    if needle.len() > hay.len() {
        return false;
    }
    let last = hay.len() - needle.len();
    let mut at: usize = 0;
    while at < last
        invariant
            last == hay.len() - needle.len(),
            at <= last,
            forall|j: int| 0 <= j < at ==> !occurs_at(hay@, needle@, j),
        decreases last - at,
    {
        if matches_at(hay, needle, at) {
            return true;
        }
        at += 1;
    }
    matches_at(hay, needle, last)
}

/// No line holds a line feed.
pub proof fn lemma_lines_hold_no_line_feed(s: Seq<char>, k: int)
    requires
        0 <= k < lines_of(s).len(),
    ensures
        forall|i: int| 0 <= i < lines_of(s)[k].len() ==> lines_of(s)[k][i] != '\n',
    decreases s.len(),
{
    lemma_line_len(s);
    let n = line_len(s) as int;
    if n < s.len() && k > 0 {
        lemma_lines_hold_no_line_feed(s.skip(n + 1), k - 1);
    }
}

/// Every field has a character, and none of its characters is white space.
pub proof fn lemma_fields_are_words(s: Seq<char>, k: int)
    requires
        0 <= k < fields_of(s).len(),
    ensures
        fields_of(s)[k].len() > 0,
        forall|i: int| 0 <= i < fields_of(s)[k].len() ==> !is_space(fields_of(s)[k][i]),
    decreases s.len(),
{
    if is_space(s[0]) {
        lemma_fields_are_words(s.drop_first(), k);
    } else {
        lemma_word_len(s);
        let n = 1 + word_len(s.drop_first()) as int;
        if n < s.len() && k > 0 {
            lemma_fields_are_words(s.skip(n), k - 1);
        }
    }
}

} // verus!
