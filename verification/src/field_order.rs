//! The `key=value` fields of an access log line are read whatever their order.
use vstd::prelude::*;

use crate::number::{is_digit, u16_value, without_plus};
use crate::parser::{
    access_record, access_status, field_value, law_no_field_without_key, lemma_skip_gap,
    lemma_value_is_read, proper_value, AccessRecord, REQUEST_TIME_KEY, UPSTREAM_ADDR_KEY,
    UPSTREAM_STATUS_KEY,
};
use crate::text::{
    first_index, first_word, leading_word, lemma_first_index, lemma_no_index, occurs_at,
    trimmed_start, white_space, CharSet,
};

verus! {

/// One of the three keys under which a line has its fields.
pub open spec fn is_field_key(key: Seq<char>) -> bool {
    key == UPSTREAM_STATUS_KEY@ || key == UPSTREAM_ADDR_KEY@ || key == REQUEST_TIME_KEY@
}

/// Fields as a line holds them: each key with its value, and a space between each
/// two of them.
pub open spec fn fields_text(fields: Seq<(Seq<char>, Seq<char>)>) -> Seq<char>
    decreases fields.len(),
{
    if fields.len() == 0 {
        Seq::empty()
    } else if fields.len() == 1 {
        fields[0].0 + fields[0].1
    } else {
        (fields[0].0 + fields[0].1).push(' ') + fields_text(fields.drop_first())
    }
}

/// Fields that a line can hold behind `head`: under different keys of the three,
/// with values without a space, an equals sign or a quote. The head ends with a
/// space, and holds none of the keys.
pub open spec fn fields_fit(head: Seq<char>, fields: Seq<(Seq<char>, Seq<char>)>) -> bool {
    &&& head.len() > 0
    &&& head.last() == ' '
    &&& forall|key: Seq<char>, i: int| is_field_key(key) ==> !#[trigger] occurs_at(head, key, i)
    &&& forall|i: int| 0 <= i < fields.len() ==> is_field_key((#[trigger] fields[i]).0)
    &&& forall|i: int, j: int|
        0 <= i < j < fields.len() ==> (#[trigger] fields[i]).0 != (#[trigger] fields[j]).0
    &&& forall|i: int|
        0 <= i < fields.len() ==> {
            &&& !(#[trigger] fields[i]).1.contains(' ')
            &&& !fields[i].1.contains('=')
            &&& !fields[i].1.contains('"')
        }
}

/// The keys end with an equals sign and have none before it, have neither white
/// space nor quotes, and differ in the letter before the sign.
proof fn lemma_field_keys(key: Seq<char>)
    requires
        is_field_key(key),
    ensures
        key.len() >= 2,
        key.last() == '=',
        forall|i: int| 0 <= i < key.len() - 1 ==> #[trigger] key[i] != '=',
        forall|i: int|
            0 <= i < key.len() ==> !white_space(#[trigger] key[i]) && key[i] != '"' && key[i]
                != ' ',
        forall|other: Seq<char>|
            #[trigger] is_field_key(other) && other != key ==> other.len() >= 2 && other[other.len()
                - 2] != key[key.len() - 2],
{
    reveal_strlit("upstream_status=");
    reveal_strlit("upstream_addr=");
    reveal_strlit("request_time=");
}

/// A key that stands in neither `head` nor under another key's field stands
/// nowhere in the two together.
proof fn lemma_no_key_behind(head: Seq<char>, other: Seq<char>, more: Seq<char>, key: Seq<char>)
    requires
        is_field_key(key),
        is_field_key(other),
        key != other,
        forall|i: int| !#[trigger] occurs_at(head, key, i),
        !more.contains('='),
    ensures
        forall|i: int| !#[trigger] occurs_at(head + other + more, key, i),
{
    let line = head + other + more;
    lemma_field_keys(key);
    lemma_field_keys(other);
    assert forall|i: int| !#[trigger] occurs_at(line, key, i) by {
        if occurs_at(line, key, i) {
            let end = i + key.len() - 1;
            let found = line.subrange(i, i + key.len());
            assert(found[key.len() - 1] == line[end]);
            assert(found[key.len() - 2] == line[end - 1]);
            if end < head.len() {
                assert(head.subrange(i, i + key.len()) =~= found);
                assert(occurs_at(head, key, i));
            } else if end < head.len() + other.len() {
                assert(line[end] == other[end - head.len()]);
                assert(end - head.len() == other.len() - 1);
                assert(line[end - 1] == other[other.len() - 2]);
            } else {
                assert(line[end] == more[end - head.len() - other.len()]);
            }
        }
    }
}

/// A key that is not in `head` does not stand before its own field behind it.
proof fn lemma_no_key_before(head: Seq<char>, key: Seq<char>, rest: Seq<char>)
    requires
        is_field_key(key),
        forall|i: int| !#[trigger] occurs_at(head, key, i),
    ensures
        forall|i: int| 0 <= i < head.len() ==> !#[trigger] occurs_at(head + key + rest, key, i),
{
    let line = head + key + rest;
    lemma_field_keys(key);
    assert forall|i: int| 0 <= i < head.len() implies !#[trigger] occurs_at(line, key, i) by {
        if occurs_at(line, key, i) {
            let end = i + key.len() - 1;
            let found = line.subrange(i, i + key.len());
            assert(found[key.len() - 1] == line[end]);
            if end < head.len() {
                assert(head.subrange(i, i + key.len()) =~= found);
                assert(occurs_at(head, key, i));
            } else {
                assert(line[end] == key[end - head.len()]);
            }
        }
    }
}

/// Each field behind `head` is read under its key, wherever it stands. The keys
/// of the fields are not in `head`; other keys may be.
proof fn lemma_field_among(head: Seq<char>, fields: Seq<(Seq<char>, Seq<char>)>, i: int)
    requires
        0 <= i < fields.len(),
        forall|j: int, k: int|
            0 <= j < fields.len() ==> !#[trigger] occurs_at(head, (#[trigger] fields[j]).0, k),
        forall|j: int| 0 <= j < fields.len() ==> is_field_key((#[trigger] fields[j]).0),
        forall|j: int, k: int|
            0 <= j < k < fields.len() ==> (#[trigger] fields[j]).0 != (#[trigger] fields[k]).0,
        forall|j: int|
            0 <= j < fields.len() ==> !(#[trigger] fields[j]).1.contains(' ')
                && !fields[j].1.contains('='),
    ensures
        field_value(head + fields_text(fields), fields[i].0) == proper_value(fields[i].1),
    decreases fields.len(),
{
    let (key, value) = fields[0];
    let line = head + fields_text(fields);
    let rest = fields.drop_first();
    if i == 0 {
        let tail = if fields.len() == 1 {
            Seq::empty()
        } else {
            seq![' '] + fields_text(rest)
        };
        lemma_no_key_before(head, key, value + tail);
        assert(line =~= head + key + value + tail);
        assert(head + key + (value + tail) =~= head + key + value + tail);
        lemma_value_is_read(head, key, value, tail);
    } else {
        let more = value.push(' ');
        let behind = head + key + more;
        assert(!more.contains('=')) by {
            if more.contains('=') {
                let k = choose|k: int| 0 <= k < more.len() && more[k] == '=';
                assert(value.contains(value[k]));
            }
        }
        assert forall|j: int, k: int| 0 <= j < rest.len() implies !#[trigger] occurs_at(
            behind,
            (#[trigger] rest[j]).0,
            k,
        ) by {
            assert(rest[j] == fields[j + 1]);
            assert(fields[0].0 != fields[j + 1].0);
            assert forall|k: int| !#[trigger] occurs_at(head, rest[j].0, k) by {
                assert(!occurs_at(head, fields[j + 1].0, k));
            }
            lemma_no_key_behind(head, key, more, rest[j].0);
        }
        assert forall|j: int| 0 <= j < rest.len() implies is_field_key((#[trigger] rest[j]).0)
            && !rest[j].1.contains(' ') && !rest[j].1.contains('=') by {
            assert(rest[j] == fields[j + 1]);
        }
        assert forall|j: int, k: int| 0 <= j < k < rest.len() implies (#[trigger] rest[j]).0 != (
        #[trigger] rest[k]).0 by {
            assert(rest[j] == fields[j + 1] && rest[k] == fields[k + 1]);
        }
        lemma_field_among(behind, rest, i - 1);
        assert(line =~= behind + fields_text(rest));
        assert(rest[i - 1] == fields[i]);
    }
}

/// A key that is neither in `head` nor among the fields is not in the line.
proof fn lemma_no_field_among(
    head: Seq<char>,
    fields: Seq<(Seq<char>, Seq<char>)>,
    key: Seq<char>,
)
    requires
        is_field_key(key),
        forall|k: int| !#[trigger] occurs_at(head, key, k),
        forall|j: int|
            0 <= j < fields.len() ==> is_field_key((#[trigger] fields[j]).0) && fields[j].0 != key
                && !fields[j].1.contains('='),
    ensures
        field_value(head + fields_text(fields), key) is None,
    decreases fields.len(),
{
    let line = head + fields_text(fields);
    if fields.len() == 0 {
        assert(line =~= head);
        law_no_field_without_key(line, key);
    } else {
        let (other, value) = fields[0];
        let rest = fields.drop_first();
        let more = if fields.len() == 1 {
            value
        } else {
            value.push(' ')
        };
        assert(!more.contains('=')) by {
            if more.contains('=') {
                let k = choose|k: int| 0 <= k < more.len() && more[k] == '=';
                assert(value.contains(value[k]));
            }
        }
        lemma_no_key_behind(head, other, more, key);
        assert forall|j: int| 0 <= j < rest.len() implies is_field_key((#[trigger] rest[j]).0)
            && rest[j].0 != key && !rest[j].1.contains('=') by {
            assert(rest[j] == fields[j + 1]);
        }
        lemma_no_field_among(head + other + more, rest, key);
        assert(line =~= head + other + more + fields_text(rest));
    }
}

/// White space that `s` begins with is trimmed from `s` with anything behind it,
/// as long as something is left of `s`.
proof fn lemma_trimmed_start_with(s: Seq<char>, rest: Seq<char>)
    requires
        trimmed_start(s, CharSet::WhiteSpace).len() > 0,
    ensures
        trimmed_start(s + rest, CharSet::WhiteSpace) == trimmed_start(s, CharSet::WhiteSpace)
            + rest,
    decreases s.len(),
{
    assert((s + rest).first() == s.first());
    if white_space(s.first()) {
        assert((s + rest).drop_first() =~= s.drop_first() + rest);
        lemma_trimmed_start_with(s.drop_first(), rest);
    }
}

/// Where trimming leaves nothing, all was white space; else the end stays.
proof fn lemma_trimmed_start_leaves(s: Seq<char>)
    ensures
        trimmed_start(s, CharSet::WhiteSpace).len() == 0 ==> forall|i: int|
            0 <= i < s.len() ==> white_space(#[trigger] s[i]),
        trimmed_start(s, CharSet::WhiteSpace).len() > 0 ==> trimmed_start(
            s,
            CharSet::WhiteSpace,
        ).last() == s.last(),
    decreases s.len(),
{
    if s.len() > 0 && white_space(s.first()) {
        let rest = s.drop_first();
        lemma_trimmed_start_leaves(rest);
        if trimmed_start(s, CharSet::WhiteSpace).len() == 0 {
            assert forall|i: int| 0 <= i < s.len() implies white_space(#[trigger] s[i]) by {
                if i > 0 {
                    assert(s[i] == rest[i - 1]);
                }
            }
        } else {
            assert(rest.len() > 0) by {
                if rest.len() == 0 {
                    assert(trimmed_start(rest, CharSet::WhiteSpace).len() == 0);
                }
            }
        }
    }
}

/// A word that white space ends does not depend on what comes behind.
proof fn lemma_ended_word(s: Seq<char>, rest: Seq<char>)
    requires
        s.len() > 0,
        white_space(s.last()),
    ensures
        leading_word(s + rest) == leading_word(s),
    decreases s.len(),
{
    assert((s + rest).first() == s.first());
    if !white_space(s.first()) {
        assert((s + rest).drop_first() =~= s.drop_first() + rest);
        assert(s.drop_first().last() == s.last());
        lemma_ended_word(s.drop_first(), rest);
    }
}

/// A word goes on as long as there is no white space.
proof fn lemma_word_holds(s: Seq<char>, n: int)
    requires
        0 <= n < s.len(),
        forall|i: int| 0 <= i <= n ==> !white_space(#[trigger] s[i]),
    ensures
        leading_word(s).len() > n,
        leading_word(s)[n] == s[n],
    decreases n,
{
    assert(!white_space(s[0]));
    if n > 0 {
        let rest = s.drop_first();
        assert forall|i: int| 0 <= i <= n - 1 implies !white_space(#[trigger] rest[i]) by {
            assert(rest[i] == s[i + 1]);
        }
        lemma_word_holds(rest, n - 1);
    }
}

/// What holds a character beyond the first that is no digit spells no number.
proof fn lemma_no_number(word: Seq<char>, n: int)
    requires
        0 < n < word.len(),
        !is_digit(word[n]),
    ensures
        u16_value(word) is None,
{
    let digits = without_plus(word);
    if word.first() == '+' {
        assert(digits[n - 1] == word[n]);
    } else {
        assert(digits[n] == word[n]);
    }
}

/// The first word behind a line's head is in the head, or is a field and so no
/// status.
proof fn lemma_status_word(after: Seq<char>, key: Seq<char>, more: Seq<char>)
    requires
        is_field_key(key),
        after.len() > 0,
        after.last() == ' ',
    ensures
        match first_word(after + (key + more)) {
            Some(word) => u16_value(word),
            None => None,
        } == match first_word(after) {
            Some(word) => u16_value(word),
            None => None,
        },
{
    let rest = key + more;
    lemma_field_keys(key);
    lemma_trimmed_start_leaves(after);
    if trimmed_start(after, CharSet::WhiteSpace).len() > 0 {
        lemma_trimmed_start_with(after, rest);
        lemma_ended_word(trimmed_start(after, CharSet::WhiteSpace), rest);
    } else {
        assert(rest.first() == key[0]);
        lemma_skip_gap(after, rest);
        let n = key.len() - 1;
        assert forall|i: int| 0 <= i <= n implies !white_space(#[trigger] rest[i]) by {
            assert(rest[i] == key[i]);
        }
        lemma_word_holds(rest, n);
        lemma_no_number(leading_word(rest), n);
    }
}

/// What comes behind without a character does not change where it stands first.
proof fn lemma_first_index_with(s: Seq<char>, rest: Seq<char>, c: char)
    requires
        !rest.contains(c),
    ensures
        first_index(s + rest, c) == first_index(s, c),
{
    s.index_of_first_ensures(c);
    if s.contains(c) {
        let i = first_index(s, c)->0;
        assert forall|j: int| 0 <= j < i implies (s + rest)[j] != c by {
            assert((s + rest)[j] == s[j]);
        }
        lemma_first_index(s + rest, c, i);
    } else {
        assert forall|j: int| 0 <= j < (s + rest).len() implies (s + rest)[j] != c by {
            if j < s.len() {
                assert(s.contains(s[j]));
            } else {
                assert(rest.contains(rest[j - s.len()]));
            }
        }
        lemma_no_index(s + rest, c);
        lemma_no_index(s, c);
    }
}

/// Fields hold no quote.
proof fn lemma_fields_without_quote(fields: Seq<(Seq<char>, Seq<char>)>)
    requires
        forall|i: int|
            0 <= i < fields.len() ==> is_field_key((#[trigger] fields[i]).0)
                && !fields[i].1.contains('"'),
    ensures
        !fields_text(fields).contains('"'),
    decreases fields.len(),
{
    let text = fields_text(fields);
    if text.contains('"') {
        let i = choose|i: int| 0 <= i < text.len() && text[i] == '"';
        let (key, value) = fields[0];
        let rest = fields.drop_first();
        lemma_field_keys(key);
        if i < key.len() {
            assert(text[i] == key[i]);
        } else if i < key.len() + value.len() {
            assert(text[i] == value[i - key.len()]);
            assert(value.contains(value[i - key.len()]));
        } else {
            assert forall|j: int| 0 <= j < rest.len() implies is_field_key((#[trigger] rest[j]).0)
                && !rest[j].1.contains('"') by {
                assert(rest[j] == fields[j + 1]);
            }
            lemma_fields_without_quote(rest);
            let at = i - key.len() - value.len() - 1;
            if at >= 0 {
                assert(text[i] == fields_text(rest)[at]);
                assert(fields_text(rest).contains(fields_text(rest)[at]));
            }
        }
    }
}

/// Fields do not change the status that a line begins with.
proof fn lemma_status_stays(head: Seq<char>, fields: Seq<(Seq<char>, Seq<char>)>)
    requires
        fields_fit(head, fields),
    ensures
        access_status(head + fields_text(fields)) == access_status(head),
{
    let rest = fields_text(fields);
    let line = head + rest;
    if fields.len() == 0 {
        assert(line =~= head);
    } else {
        lemma_fields_without_quote(fields);
        lemma_first_index_with(head, rest, '"');
        head.index_of_first_ensures('"');
        if let Some(opening) = first_index(head, '"') {
            let quoted = head.skip(opening + 1);
            assert(line.skip(opening + 1) =~= quoted + rest);
            lemma_first_index_with(quoted, rest, '"');
            quoted.index_of_first_ensures('"');
            if let Some(closing) = first_index(quoted, '"') {
                let after = quoted.skip(closing + 1);
                assert((quoted + rest).skip(closing + 1) =~= after + rest);
                assert(quoted.last() == ' ');
                assert(after.last() == ' ');
                let key = fields[0].0;
                let more = rest.skip(key.len() as int);
                assert(rest =~= key + more);
                lemma_status_word(after, key, more);
            }
        }
    }
}

/// Fields that were written behind the head of a line are read from it, wherever
/// among them each stands: under each key its value, where an empty and a dashed
/// one are none, and nothing under a key that was not written. The status stays
/// that of the head.
pub proof fn law_fields_are_read(head: Seq<char>, fields: Seq<(Seq<char>, Seq<char>)>)
    requires
        fields_fit(head, fields),
    ensures
        forall|i: int|
            0 <= i < fields.len() ==> field_value(
                head + fields_text(fields),
                (#[trigger] fields[i]).0,
            ) == proper_value(fields[i].1),
        forall|key: Seq<char>|
            is_field_key(key) && (forall|i: int|
                0 <= i < fields.len() ==> (#[trigger] fields[i]).0 != key)
                ==> #[trigger] field_value(head + fields_text(fields), key) is None,
        access_status(head + fields_text(fields)) == access_status(head),
{
    assert forall|i: int| 0 <= i < fields.len() implies field_value(
        head + fields_text(fields),
        (#[trigger] fields[i]).0,
    ) == proper_value(fields[i].1) by {
        lemma_field_among(head, fields, i);
    }
    assert forall|key: Seq<char>|
        is_field_key(key) && (forall|i: int|
            0 <= i < fields.len() ==> (#[trigger] fields[i]).0
                != key) implies #[trigger] field_value(head + fields_text(fields), key) is None by {
        lemma_no_field_among(head, fields, key);
    }
    lemma_status_stays(head, fields);
}

/// The order of the fields of a line does not matter: lines with the same fields
/// behind the same head say the same.
pub proof fn law_field_order_does_not_matter(
    head: Seq<char>,
    fields: Seq<(Seq<char>, Seq<char>)>,
    reordered: Seq<(Seq<char>, Seq<char>)>,
)
    requires
        fields_fit(head, fields),
        fields_fit(head, reordered),
        forall|field: (Seq<char>, Seq<char>)|
            #[trigger] fields.contains(field) <==> reordered.contains(field),
    ensures
        access_record(head + fields_text(reordered)) == (AccessRecord {
            raw: head + fields_text(reordered),
            ..access_record(head + fields_text(fields))
        }),
{
    law_fields_are_read(head, fields);
    law_fields_are_read(head, reordered);
    lemma_same_field(head, fields, reordered, UPSTREAM_STATUS_KEY@);
    lemma_same_field(head, fields, reordered, UPSTREAM_ADDR_KEY@);
    lemma_same_field(head, fields, reordered, REQUEST_TIME_KEY@);
}

/// The same fields give the same value under a key.
proof fn lemma_same_field(
    head: Seq<char>,
    fields: Seq<(Seq<char>, Seq<char>)>,
    reordered: Seq<(Seq<char>, Seq<char>)>,
    key: Seq<char>,
)
    requires
        is_field_key(key),
        fields_fit(head, fields),
        fields_fit(head, reordered),
        forall|field: (Seq<char>, Seq<char>)|
            #[trigger] fields.contains(field) <==> reordered.contains(field),
    ensures
        field_value(head + fields_text(fields), key) == field_value(
            head + fields_text(reordered),
            key,
        ),
{
    law_fields_are_read(head, fields);
    law_fields_are_read(head, reordered);
    if exists|i: int| 0 <= i < fields.len() && (#[trigger] fields[i]).0 == key {
        let i = choose|i: int| 0 <= i < fields.len() && (#[trigger] fields[i]).0 == key;
        assert(fields.contains(fields[i]));
        let j = choose|j: int| 0 <= j < reordered.len() && reordered[j] == fields[i];
        assert(reordered[j].0 == key);
    } else {
        assert forall|j: int| 0 <= j < reordered.len() implies (#[trigger] reordered[j]).0
            != key by {
            assert(reordered.contains(reordered[j]));
            assert(fields.contains(reordered[j]));
        }
    }
}

} // verus!
