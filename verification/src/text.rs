//! Text building blocks: character sets, trimming, searching, words and lines.
//!
//! Positions are counted in characters, so that each contract is a statement
//! about the `Seq<char>` that a string stands for.
use vstd::prelude::*;
use vstd::utf8::{decode_utf8, valid_utf8};

verus! {

/// `String::push` appends exactly one character, and changes nothing else.
pub assume_specification[ String::push ](text: &mut String, c: char)
    ensures
        final(text)@ == old(text)@.push(c),
;

/// `String::from_utf8`: the characters that some bytes encode, if and only if
/// the bytes are valid UTF-8. Else the error, as it puts itself; of its words
/// nothing is stated.
#[verifier::external_body]
pub(crate) fn text_from_utf8(bytes: Vec<u8>) -> (text: Result<String, String>)
    ensures
        match text {
            Ok(s) => valid_utf8(bytes@) && s@ == decode_utf8(bytes@),
            Err(_) => !valid_utf8(bytes@),
        },
{
    String::from_utf8(bytes).map_err(|error| error.to_string())
}

/// A set of characters that trimming removes.
#[derive(Clone, Copy)]
pub enum CharSet {
    /// The characters with the Unicode property `White_Space`.
    WhiteSpace,
    /// Line feed and carriage return.
    LineEnd,
    /// The slash alone.
    Slash,
}

/// The characters with the Unicode property `White_Space`.
pub open spec fn white_space(c: char) -> bool {
    ||| '\u{9}' <= c <= '\u{d}'
    ||| c == '\u{20}'
    ||| c == '\u{85}'
    ||| c == '\u{a0}'
    ||| c == '\u{1680}'
    ||| '\u{2000}' <= c <= '\u{200a}'
    ||| c == '\u{2028}'
    ||| c == '\u{2029}'
    ||| c == '\u{202f}'
    ||| c == '\u{205f}'
    ||| c == '\u{3000}'
}

impl CharSet {
    /// Which characters the set holds.
    pub open spec fn holds(self, c: char) -> bool {
        match self {
            CharSet::WhiteSpace => white_space(c),
            CharSet::LineEnd => c == '\n' || c == '\r',
            CharSet::Slash => c == '/',
        }
    }

    /// Tells whether `c` is in the set.
    pub fn contains(self, c: char) -> (found: bool)
        ensures
            found == self.holds(c),
    {
        match self {
            CharSet::WhiteSpace => is_white_space(c),
            CharSet::LineEnd => c == '\n' || c == '\r',
            CharSet::Slash => c == '/',
        }
    }
}

/// Tells whether `c` has the Unicode property `White_Space`.
pub fn is_white_space(c: char) -> (found: bool)
    ensures
        found == white_space(c),
{
    ('\u{9}' <= c && c <= '\u{d}') || c == '\u{20}' || c == '\u{85}' || c == '\u{a0}' || c
        == '\u{1680}' || ('\u{2000}' <= c && c <= '\u{200a}') || c == '\u{2028}' || c == '\u{2029}'
        || c == '\u{202f}' || c == '\u{205f}' || c == '\u{3000}'
}

/// The characters of a string, in order.
pub fn chars_of(text: &str) -> (chars: Vec<char>)
    ensures
        chars@ == text@,
{
    let mut chars: Vec<char> = Vec::new();
    for c in it: text.chars()
        invariant
            chars@ == it.seq().take(it.index() as int),
    {
        chars.push(c);
    }
    chars
}

/// Tells whether a string is the one character `c`.
pub fn is_only(text: &str, c: char) -> (same: bool)
    ensures
        same == (text@ == seq![c]),
{
    let chars = chars_of(text);
    let same = chars.len() == 1 && chars[0] == c;
    assert(same ==> text@ =~= seq![c]);
    same
}

/// Tells whether two strings hold the same characters.
pub fn same_text(a: &str, b: &str) -> (same: bool)
    ensures
        same == (a@ == b@),
{
    let left = chars_of(a);
    let right = chars_of(b);
    if left.len() != right.len() {
        return false;
    }
    let same = stands_at(&left, &right, 0);
    assert(left@.subrange(0, right@.len() as int) =~= left@);
    same
}

// ---------------------------------------------------------------------------
// Trimming
// ---------------------------------------------------------------------------

/// `s` without the characters of `set` that it begins with.
pub open spec fn trimmed_start(s: Seq<char>, set: CharSet) -> Seq<char>
    decreases s.len(),
{
    if s.len() > 0 && set.holds(s.first()) {
        trimmed_start(s.drop_first(), set)
    } else {
        s
    }
}

/// `s` without the characters of `set` that it ends with.
pub open spec fn trimmed_end(s: Seq<char>, set: CharSet) -> Seq<char>
    decreases s.len(),
{
    if s.len() > 0 && set.holds(s.last()) {
        trimmed_end(s.drop_last(), set)
    } else {
        s
    }
}

/// `s` without the characters of `set` at either end.
pub open spec fn trimmed(s: Seq<char>, set: CharSet) -> Seq<char> {
    trimmed_end(trimmed_start(s, set), set)
}

/// What trimming the end leaves is a prefix that does not end with a character
/// of the set, and all that it removes is in the set.
pub proof fn lemma_trimmed_end(s: Seq<char>, set: CharSet)
    ensures
        trimmed_end(s, set).is_prefix_of(s),
        trimmed_end(s, set).len() > 0 ==> !set.holds(trimmed_end(s, set).last()),
        forall|i: int|
            trimmed_end(s, set).len() <= i < s.len() ==> set.holds(#[trigger] s[i]),
    decreases s.len(),
{
    if s.len() > 0 && set.holds(s.last()) {
        lemma_trimmed_end(s.drop_last(), set);
        let rest = trimmed_end(s, set);
        assert forall|i: int| rest.len() <= i < s.len() implies set.holds(#[trigger] s[i]) by {
            if i < s.len() - 1 {
                assert(s[i] == s.drop_last()[i]);
            }
        }
    }
}

/// Removes the characters of `set` from the start of a string.
pub fn trim_start<'a>(text: &'a str, set: CharSet) -> (rest: &'a str)
    ensures
        rest@ == trimmed_start(text@, set),
{
    let chars = chars_of(text);
    let mut start: usize = 0;
    assert(chars@.skip(0) =~= chars@);
    while start < chars.len() && set.contains(chars[start])
        invariant
            start <= chars.len(),
            trimmed_start(chars@.skip(start as int), set) == trimmed_start(chars@, set),
        decreases chars.len() - start,
    {
        assert(chars@.skip(start as int).drop_first() =~= chars@.skip(start + 1));
        start = start + 1;
    }
    assert(text@.subrange(start as int, chars@.len() as int) =~= chars@.skip(start as int));
    text.substring_char(start, chars.len())
}

/// Removes the characters of `set` from the end of a string.
pub fn trim_end<'a>(text: &'a str, set: CharSet) -> (rest: &'a str)
    ensures
        rest@ == trimmed_end(text@, set),
{
    let chars = chars_of(text);
    let mut end: usize = chars.len();
    assert(chars@.take(end as int) =~= chars@);
    while end > 0 && set.contains(chars[end - 1])
        invariant
            end <= chars.len(),
            trimmed_end(chars@.take(end as int), set) == trimmed_end(chars@, set),
        decreases end,
    {
        assert(chars@.take(end as int).drop_last() =~= chars@.take(end - 1));
        end = end - 1;
    }
    text.substring_char(0, end)
}

/// Removes the characters of `set` from both ends of a string.
pub fn trim<'a>(text: &'a str, set: CharSet) -> (rest: &'a str)
    ensures
        rest@ == trimmed(text@, set),
{
    trim_end(trim_start(text, set), set)
}

// ---------------------------------------------------------------------------
// Searching
// ---------------------------------------------------------------------------

/// `pattern` stands in `s` at position `i`.
pub open spec fn occurs_at(s: Seq<char>, pattern: Seq<char>, i: int) -> bool {
    &&& 0 <= i
    &&& i + pattern.len() <= s.len()
    &&& s.subrange(i, i + pattern.len()) == pattern
}

/// `i` is the leftmost position at which `pattern` stands in `s`.
pub open spec fn first_occurs_at(s: Seq<char>, pattern: Seq<char>, i: int) -> bool {
    &&& occurs_at(s, pattern, i)
    &&& forall|j: int| 0 <= j < i ==> !occurs_at(s, pattern, j)
}

/// The leftmost position at which `pattern` stands in `s`, if there is one.
pub open spec fn first_occurrence(s: Seq<char>, pattern: Seq<char>) -> Option<int> {
    if exists|i: int| first_occurs_at(s, pattern, i) {
        Some(choose|i: int| first_occurs_at(s, pattern, i))
    } else {
        None
    }
}

/// The leftmost position of `c` in `s`, if there is one.
pub open spec fn first_index(s: Seq<char>, c: char) -> Option<int> {
    s.index_of_first(c)
}

/// `s` up to the leftmost `c`; all of `s` where there is none.
pub open spec fn before(s: Seq<char>, c: char) -> Seq<char> {
    match first_index(s, c) {
        Some(i) => s.take(i),
        None => s,
    }
}

/// A leftmost occurrence is the one that `first_occurrence` gives.
pub proof fn lemma_first_occurrence(s: Seq<char>, pattern: Seq<char>, i: int)
    requires
        first_occurs_at(s, pattern, i),
    ensures
        first_occurrence(s, pattern) == Some(i),
{
    let k = choose|k: int| first_occurs_at(s, pattern, k);
    assert(first_occurs_at(s, pattern, k));
    assert(!(k < i) && !(i < k));
}

/// The position of a character that none like it precedes.
pub proof fn lemma_first_index(s: Seq<char>, c: char, i: int)
    requires
        0 <= i < s.len(),
        s[i] == c,
        forall|j: int| 0 <= j < i ==> s[j] != c,
    ensures
        first_index(s, c) == Some(i),
{
    s.index_of_first_ensures(c);
    assert(s.contains(c));
    let k = s.index_of_first(c)->0;
    assert(!(k < i) && !(i < k));
}

/// There is no position of a character that does not occur.
pub proof fn lemma_no_index(s: Seq<char>, c: char)
    requires
        forall|j: int| 0 <= j < s.len() ==> s[j] != c,
    ensures
        first_index(s, c) is None,
        before(s, c) == s,
{
    s.index_of_first_ensures(c);
    assert(!s.contains(c));
}

/// Finds the leftmost `c` in a string, counted in characters.
pub fn find_char(text: &str, c: char) -> (found: Option<usize>)
    ensures
        match found {
            Some(i) => i < text@.len() <= usize::MAX && first_index(text@, c) == Some(i as int),
            None => first_index(text@, c) is None,
        },
{
    let chars = chars_of(text);
    let mut i: usize = 0;
    while i < chars.len()
        invariant
            i <= chars.len(),
            chars@ == text@,
            forall|j: int| 0 <= j < i ==> text@[j] != c,
        decreases chars.len() - i,
    {
        if chars[i] == c {
            proof {
                lemma_first_index(text@, c, i as int);
            }
            return Some(i);
        }
        i = i + 1;
    }
    proof {
        lemma_no_index(text@, c);
    }
    None
}

/// Tells whether `pattern` stands in `chars` at position `at`.
fn stands_at(chars: &Vec<char>, pattern: &Vec<char>, at: usize) -> (found: bool)
    requires
        at + pattern@.len() <= chars@.len(),
    ensures
        found == occurs_at(chars@, pattern@, at as int),
{
    let mut k: usize = 0;
    while k < pattern.len()
        invariant
            k <= pattern.len(),
            at + pattern.len() <= chars.len(),
            forall|j: int| 0 <= j < k ==> chars@[at + j] == pattern@[j],
        decreases pattern.len() - k,
    {
        if chars[at + k] != pattern[k] {
            assert(chars@.subrange(at as int, at + pattern@.len())[k as int] != pattern@[k as int]);
            return false;
        }
        k = k + 1;
    }
    assert(chars@.subrange(at as int, at + pattern@.len()) =~= pattern@);
    true
}

/// Finds the leftmost occurrence of `pattern` in a string, counted in
/// characters.
pub fn find_text(text: &str, pattern: &str) -> (found: Option<usize>)
    ensures
        match found {
            Some(i) => i + pattern@.len() <= text@.len() <= usize::MAX && first_occurrence(
                text@,
                pattern@,
            ) == Some(i as int),
            None => first_occurrence(text@, pattern@) is None,
        },
{
    let chars = chars_of(text);
    let wanted = chars_of(pattern);
    if wanted.len() > chars.len() {
        return None;
    }
    let last: usize = chars.len() - wanted.len();
    let mut i: usize = 0;
    while i < last
        invariant
            i <= last,
            last + wanted.len() == chars.len(),
            chars@ == text@,
            wanted@ == pattern@,
            forall|j: int| 0 <= j < i ==> !occurs_at(text@, pattern@, j),
        decreases last - i,
    {
        if stands_at(&chars, &wanted, i) {
            proof {
                lemma_first_occurrence(text@, pattern@, i as int);
            }
            return Some(i);
        }
        i = i + 1;
    }
    if stands_at(&chars, &wanted, last) {
        proof {
            lemma_first_occurrence(text@, pattern@, last as int);
        }
        return Some(last);
    }
    None
}

/// The part of a string before the leftmost `c`, or all of it.
pub fn before_char<'a>(text: &'a str, c: char) -> (part: &'a str)
    ensures
        part@ == before(text@, c),
{
    match find_char(text, c) {
        Some(i) => text.substring_char(0, i),
        None => text,
    }
}

/// The part of a string from its character number `from` on.
pub fn skip_chars<'a>(text: &'a str, from: usize) -> (part: &'a str)
    requires
        from <= text@.len(),
    ensures
        part@ == text@.skip(from as int),
{
    let end = text.unicode_len();
    assert(text@.subrange(from as int, end as int) =~= text@.skip(from as int));
    text.substring_char(from, end)
}

// ---------------------------------------------------------------------------
// Words and lines
// ---------------------------------------------------------------------------

/// The longest prefix of `s` without white space.
pub open spec fn leading_word(s: Seq<char>) -> Seq<char>
    decreases s.len(),
{
    if s.len() > 0 && !white_space(s.first()) {
        seq![s.first()] + leading_word(s.drop_first())
    } else {
        Seq::empty()
    }
}

/// The first of the words that white space separates in `s`, if there is one.
pub open spec fn first_word(s: Seq<char>) -> Option<Seq<char>> {
    let rest = trimmed_start(s, CharSet::WhiteSpace);
    if rest.len() == 0 {
        None
    } else {
        Some(leading_word(rest))
    }
}

/// A run without white space is the leading word of what it begins.
pub proof fn lemma_leading_word(word: Seq<char>, rest: Seq<char>)
    requires
        forall|i: int| 0 <= i < word.len() ==> !white_space(#[trigger] word[i]),
        rest.len() > 0 ==> white_space(rest.first()),
    ensures
        leading_word(word + rest) == word,
    decreases word.len(),
{
    let s = word + rest;
    if word.len() > 0 {
        assert(!white_space(word[0]));
        assert(s.drop_first() =~= word.drop_first() + rest);
        assert forall|i: int| 0 <= i < word.drop_first().len() implies !white_space(
            #[trigger] word.drop_first()[i],
        ) by {
            assert(word.drop_first()[i] == word[i + 1]);
        }
        lemma_leading_word(word.drop_first(), rest);
        assert(seq![s.first()] + word.drop_first() =~= word);
    } else {
        assert(s =~= rest);
    }
}

/// The first of the words that white space separates in a string.
pub fn next_word<'a>(text: &'a str) -> (word: Option<&'a str>)
    ensures
        match word {
            Some(w) => first_word(text@) == Some(w@),
            None => first_word(text@) is None,
        },
{
    let rest = trim_start(text, CharSet::WhiteSpace);
    let chars = chars_of(rest);
    if chars.len() == 0 {
        return None;
    }
    let mut end: usize = 0;
    while end < chars.len() && !is_white_space(chars[end])
        invariant
            end <= chars.len(),
            forall|i: int| 0 <= i < end ==> !white_space(#[trigger] chars@[i]),
        decreases chars.len() - end,
    {
        end = end + 1;
    }
    proof {
        let word = chars@.take(end as int);
        let tail = chars@.skip(end as int);
        assert(word + tail =~= chars@);
        lemma_leading_word(word, tail);
        assert(rest@.subrange(0, end as int) =~= word);
    }
    Some(rest.substring_char(0, end))
}

/// `lines`, with a line feed between each two of them.
pub open spec fn joined(lines: Seq<Seq<char>>) -> Seq<char>
    decreases lines.len(),
{
    if lines.len() == 0 {
        Seq::empty()
    } else if lines.len() == 1 {
        lines[0]
    } else {
        joined(lines.drop_last()).push('\n') + lines.last()
    }
}

/// The texts of a sequence of strings.
pub open spec fn texts(lines: Seq<String>) -> Seq<Seq<char>> {
    lines.map_values(|line: String| line@)
}

/// How often `c` occurs in `s`.
pub open spec fn occurrences(s: Seq<char>, c: char) -> nat
    decreases s.len(),
{
    if s.len() == 0 {
        0
    } else {
        occurrences(s.drop_last(), c) + if s.last() == c {
            1nat
        } else {
            0nat
        }
    }
}

/// Occurrences add up over parts.
pub proof fn lemma_occurrences_add_up(a: Seq<char>, b: Seq<char>, c: char)
    ensures
        occurrences(a + b, c) == occurrences(a, c) + occurrences(b, c),
    decreases b.len(),
{
    if b.len() == 0 {
        assert(a + b =~= a);
    } else {
        assert((a + b).drop_last() =~= a + b.drop_last());
        lemma_occurrences_add_up(a, b.drop_last(), c);
    }
}

/// A character that does not occur occurs no time.
pub proof fn lemma_no_occurrences(s: Seq<char>, c: char)
    requires
        !s.contains(c),
    ensures
        occurrences(s, c) == 0,
    decreases s.len(),
{
    if s.len() > 0 {
        assert(s.contains(s[s.len() - 1]));
        assert forall|i: int| 0 <= i < s.drop_last().len() implies s.drop_last()[i] != c by {
            assert(s.contains(s[i]));
        }
        lemma_no_occurrences(s.drop_last(), c);
    }
}

/// Joining lines puts each on a line of its own: between lines without line
/// feeds there is one less line feed than there are lines.
pub proof fn law_joined_lines_stay_apart(lines: Seq<Seq<char>>)
    requires
        lines.len() > 0,
        forall|i: int| 0 <= i < lines.len() ==> !(#[trigger] lines[i]).contains('\n'),
    ensures
        occurrences(joined(lines), '\n') + 1 == lines.len(),
    decreases lines.len(),
{
    lemma_no_occurrences(lines.last(), '\n');
    if lines.len() > 1 {
        let earlier = lines.drop_last();
        assert forall|i: int| 0 <= i < earlier.len() implies !(#[trigger] earlier[i]).contains(
            '\n',
        ) by {
            assert(earlier[i] == lines[i]);
        }
        law_joined_lines_stay_apart(earlier);
        assert(joined(earlier).push('\n').drop_last() =~= joined(earlier));
        lemma_occurrences_add_up(joined(earlier).push('\n'), lines.last(), '\n');
    }
}

/// The white space is what Unicode gives the property `White_Space`.
pub proof fn law_white_space_is_that_of_unicode(c: char)
    ensures
        white_space(c) <==> {
            let code = c as u32;
            ||| 9 <= code <= 13
            ||| code == 32
            ||| code == 0x85
            ||| code == 0xa0
            ||| code == 0x1680
            ||| 0x2000 <= code <= 0x200a
            ||| code == 0x2028
            ||| code == 0x2029
            ||| code == 0x202f
            ||| code == 0x205f
            ||| code == 0x3000
        },
        CharSet::WhiteSpace.holds(c) <==> white_space(c),
        CharSet::LineEnd.holds(c) <==> c as u32 == 10 || c as u32 == 13,
        CharSet::Slash.holds(c) <==> c as u32 == 47,
{
}

/// Trimming removes all characters of the set before and behind a text that
/// neither begins nor ends with one, and nothing else.
pub proof fn law_trimming_leaves_the_inside(
    before: Seq<char>,
    inside: Seq<char>,
    behind: Seq<char>,
    set: CharSet,
)
    requires
        forall|i: int| 0 <= i < before.len() ==> set.holds(#[trigger] before[i]),
        forall|i: int| 0 <= i < behind.len() ==> set.holds(#[trigger] behind[i]),
        inside.len() > 0 ==> !set.holds(inside.first()) && !set.holds(inside.last()),
    ensures
        trimmed(before + inside + behind, set) == inside,
        inside.len() > 0 ==> trimmed_start(before + inside + behind, set) == inside + behind,
        trimmed_end(inside + behind, set) == inside,
    decreases before.len() + behind.len(),
{
    let s = before + inside + behind;
    if behind.len() > 0 {
        let less = behind.drop_last();
        assert forall|i: int| 0 <= i < less.len() implies set.holds(#[trigger] less[i]) by {
            assert(less[i] == behind[i]);
        }
        assert(set.holds(behind[behind.len() - 1]));
        law_trimming_leaves_the_inside(before, inside, less, set);
        assert((inside + behind).drop_last() =~= inside + less);
        assert((inside + behind).last() == behind.last());
    } else {
        assert(inside + behind =~= inside);
    }
    if before.len() > 0 {
        let less = before.drop_first();
        assert forall|i: int| 0 <= i < less.len() implies set.holds(#[trigger] less[i]) by {
            assert(less[i] == before[i + 1]);
        }
        assert(set.holds(before[0]));
        law_trimming_leaves_the_inside(less, inside, behind, set);
        assert(s.drop_first() =~= less + inside + behind);
        assert(s.first() == before.first());
    } else {
        assert(s =~= inside + behind);
        if inside.len() > 0 {
            assert(s.first() == inside.first());
        } else if behind.len() > 0 {
            assert(set.holds(behind[0]));
            assert(s =~= behind);
            let less = behind.drop_first();
            assert forall|i: int| 0 <= i < less.len() implies set.holds(#[trigger] less[i]) by {
                assert(less[i] == behind[i + 1]);
            }
            law_trimming_leaves_the_inside(before, inside, less, set);
            assert(s.drop_first() =~= before + inside + less);
            assert(trimmed_start(s, set) == trimmed_start(s.drop_first(), set));
        }
    }
}

/// The first word is what stands between the white space that a text begins with
/// and the white space behind it. White space alone holds no word.
pub proof fn law_first_word(gap: Seq<char>, word: Seq<char>, rest: Seq<char>)
    requires
        forall|i: int| 0 <= i < gap.len() ==> white_space(#[trigger] gap[i]),
        forall|i: int| 0 <= i < word.len() ==> !white_space(#[trigger] word[i]),
        rest.len() > 0 ==> white_space(rest.first()),
    ensures
        word.len() > 0 ==> first_word(gap + word + rest) == Some(word),
        first_word(gap) is None,
    decreases gap.len(),
{
    if gap.len() > 0 {
        let less = gap.drop_first();
        assert forall|i: int| 0 <= i < less.len() implies white_space(#[trigger] less[i]) by {
            assert(less[i] == gap[i + 1]);
        }
        law_first_word(less, word, rest);
        assert(white_space(gap[0]));
        assert((gap + word + rest).drop_first() =~= less + word + rest);
    } else if word.len() > 0 {
        assert(gap + word + rest =~= word + rest);
        assert(!white_space(word[0]));
        assert((word + rest).first() == word[0]);
        lemma_leading_word(word, rest);
    }
}

/// A pattern stands at a position if and only if its characters do, one by one.
pub proof fn law_pattern_stands_character_by_character(
    s: Seq<char>,
    pattern: Seq<char>,
    at: int,
)
    ensures
        occurs_at(s, pattern, at) <==> 0 <= at && at + pattern.len() <= s.len() && (forall|k: int|
            0 <= k < pattern.len() ==> s[at + k] == #[trigger] pattern[k]),
{
    if occurs_at(s, pattern, at) {
        assert forall|k: int| 0 <= k < pattern.len() implies s[at + k] == #[trigger] pattern[k] by {
            assert(s.subrange(at, at + pattern.len())[k] == s[at + k]);
        }
    } else if 0 <= at && at + pattern.len() <= s.len() && (forall|k: int|
        0 <= k < pattern.len() ==> s[at + k] == #[trigger] pattern[k]) {
        assert(s.subrange(at, at + pattern.len()) =~= pattern);
    }
}

/// What stands before a character is all before its first occurrence, and all of
/// the text where it does not occur.
pub proof fn law_part_before_a_character(part: Seq<char>, rest: Seq<char>, c: char)
    requires
        !part.contains(c),
        rest.len() > 0 ==> rest.first() == c,
    ensures
        before(part + rest, c) == part,
{
    assert forall|i: int| 0 <= i < part.len() implies part[i] != c by {
        assert(part.contains(part[i]));
    }
    if rest.len() > 0 {
        lemma_first_index(part + rest, c, part.len() as int);
        assert((part + rest).take(part.len() as int) =~= part);
    } else {
        assert(part + rest =~= part);
        lemma_no_index(part, c);
    }
}

/// Joined lines are the lines in their order, with one line feed between each two
/// of them and nothing else: of no lines nothing comes, one line is itself, and
/// the lines of two parts are joined by a line feed.
pub proof fn law_lines_are_joined_in_order(a: Seq<Seq<char>>, b: Seq<Seq<char>>, line: Seq<char>)
    requires
        a.len() > 0,
        b.len() > 0,
    ensures
        joined(Seq::empty()) == Seq::<char>::empty(),
        joined(seq![line]) == line,
        joined(a + b) == joined(a) + seq!['\n'] + joined(b),
    decreases b.len(),
{
    assert(seq![line].len() == 1);
    let whole = a + b;
    assert(whole.last() == b.last());
    if b.len() == 1 {
        assert(whole.drop_last() =~= a);
        assert(b =~= seq![b[0]]);
        assert(joined(whole) =~= joined(a) + seq!['\n'] + joined(b));
    } else {
        let less = b.drop_last();
        law_lines_are_joined_in_order(a, less, line);
        assert(whole.drop_last() =~= a + less);
        assert(joined(whole) =~= joined(a) + seq!['\n'] + joined(b));
    }
}

/// The first occurrence of a pattern is the leftmost, and there is none if and
/// only if the pattern stands nowhere.
pub proof fn law_first_occurrence_is_leftmost(s: Seq<char>, pattern: Seq<char>, at: int)
    ensures
        occurs_at(s, pattern, at) && (forall|j: int|
            0 <= j < at ==> !#[trigger] occurs_at(s, pattern, j)) ==> first_occurrence(s, pattern)
            == Some(at),
        (forall|j: int| !#[trigger] occurs_at(s, pattern, j)) ==> first_occurrence(s, pattern)
            is None,
{
    if occurs_at(s, pattern, at) && (forall|j: int|
        0 <= j < at ==> !#[trigger] occurs_at(s, pattern, j)) {
        assert(first_occurs_at(s, pattern, at));
        lemma_first_occurrence(s, pattern, at);
    }
}

/// The texts of strings are the strings' own, one by one.
pub proof fn law_texts_are_those_of_the_strings(lines: Seq<String>, i: int)
    requires
        0 <= i < lines.len(),
    ensures
        texts(lines).len() == lines.len(),
        texts(lines)[i] == lines[i]@,
{
}

} // verus!
