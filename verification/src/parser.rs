//! Reads lines of an Nginx access log.
//!
//! A line is in the combined format, with `key=value` fields behind it:
//! `<ip> - <user> [time] "<request>" <status> ... upstream_status=200
//! upstream_addr=10.0.0.10:443 request_time=0.015`.
use vstd::prelude::*;

use crate::number::{
    decimal, is_digit, is_number_text, law_decimal_reads_back, law_u16_round_trip, number_text,
    parse_u16, u16_value,
};
use crate::text::{
    before, before_char, find_char, find_text, first_index, first_occurrence, first_occurs_at,
    first_word, is_only, law_first_word, law_part_before_a_character,
    law_trimming_leaves_the_inside, lemma_first_index, lemma_first_occurrence, lemma_leading_word,
    lemma_no_index, next_word, occurs_at, skip_chars, trim, trimmed, trimmed_start, white_space,
    CharSet,
};

verus! {

/// What stands before the upstream's status in a line.
pub const UPSTREAM_STATUS_KEY: &'static str = "upstream_status=";

/// What stands before the upstream's address in a line.
pub const UPSTREAM_ADDR_KEY: &'static str = "upstream_addr=";

/// What stands before the request's duration in a line.
pub const REQUEST_TIME_KEY: &'static str = "request_time=";

/// What a line of the access log says.
#[derive(Debug, Clone)]
pub struct ParsedAccess {
    /// The line itself.
    pub raw: String,
    /// The status that the client got.
    pub status: Option<u16>,
    /// The first upstream that was asked.
    pub upstream_addr: Option<String>,
    /// The status of the first upstream that was asked.
    pub upstream_status: Option<u16>,
    /// The duration of the request in seconds, as the line spells it: the text
    /// of a number.
    pub request_time: Option<String>,
}

/// The mathematical content of a [`ParsedAccess`].
#[verifier::ext_equal]
pub struct AccessRecord {
    pub raw: Seq<char>,
    pub status: Option<u16>,
    pub upstream_addr: Option<Seq<char>>,
    pub upstream_status: Option<u16>,
    pub request_time: Option<Seq<char>>,
}

/// The text of an optional string.
pub open spec fn optional_text(text: Option<String>) -> Option<Seq<char>> {
    match text {
        Some(s) => Some(s@),
        None => None,
    }
}

impl View for ParsedAccess {
    type V = AccessRecord;

    open spec fn view(&self) -> AccessRecord {
        AccessRecord {
            raw: self.raw@,
            status: self.status,
            upstream_addr: optional_text(self.upstream_addr),
            upstream_status: self.upstream_status,
            request_time: optional_text(self.request_time),
        }
    }
}

/// The client's status in a line: the number that is the first word behind the
/// first quoted part.
pub open spec fn access_status(line: Seq<char>) -> Option<u16> {
    match first_index(line, '"') {
        None => None,
        Some(opening) => {
            let quoted = line.skip(opening + 1);
            match first_index(quoted, '"') {
                None => None,
                Some(closing) => match first_word(quoted.skip(closing + 1)) {
                    None => None,
                    Some(word) => u16_value(word),
                },
            }
        },
    }
}

/// What is read of a value: an empty and a dashed value are none.
pub open spec fn proper_value(value: Seq<char>) -> Option<Seq<char>> {
    if value.len() == 0 || value == seq!['-'] {
        None
    } else {
        Some(value)
    }
}

/// The value of a field: what stands between the first `key` of the line and
/// the next space. A missing, an empty and a dashed value are none.
pub open spec fn field_value(line: Seq<char>, key: Seq<char>) -> Option<Seq<char>> {
    match first_occurrence(line, key) {
        None => None,
        Some(at) => proper_value(before(line.skip(at + key.len()), ' ')),
    }
}

/// The status that one entry of an upstream's list spells.
pub open spec fn status_entry(entry: Seq<char>) -> Option<u16> {
    if entry == seq!['-'] {
        None
    } else {
        u16_value(trimmed(entry, CharSet::WhiteSpace))
    }
}

/// The first upstream status of a line.
pub open spec fn upstream_status_in(line: Seq<char>) -> Option<u16> {
    match field_value(line, UPSTREAM_STATUS_KEY@) {
        None => None,
        Some(list) => status_entry(before(list, ',')),
    }
}

/// The first upstream address of a line.
pub open spec fn upstream_addr_in(line: Seq<char>) -> Option<Seq<char>> {
    match field_value(line, UPSTREAM_ADDR_KEY@) {
        None => None,
        Some(list) => {
            let first = before(list, ',');
            if first.len() == 0 || first == seq!['-'] {
                None
            } else {
                Some(first)
            }
        },
    }
}

/// The duration of the request in a line, as the line spells it. What does not
/// spell a number is none.
pub open spec fn request_time_in(line: Seq<char>) -> Option<Seq<char>> {
    match field_value(line, REQUEST_TIME_KEY@) {
        Some(time) if number_text(time) => Some(time),
        _ => None,
    }
}

/// All that a line of the access log says.
pub open spec fn access_record(line: Seq<char>) -> AccessRecord {
    AccessRecord {
        raw: line,
        status: access_status(line),
        upstream_addr: upstream_addr_in(line),
        upstream_status: upstream_status_in(line),
        request_time: request_time_in(line),
    }
}

/// Reads one line of the access log.
pub fn parse_access_line(line: &str) -> (parsed: ParsedAccess)
    ensures
        parsed@ == access_record(line@),
{
    let status = parse_status_code_from_access(line);
    let upstream_status = match extract_kv_value(line, UPSTREAM_STATUS_KEY) {
        Some(list) => parse_status_field(before_char(list, ',')),
        None => None,
    };
    let upstream_addr = match extract_kv_value(line, UPSTREAM_ADDR_KEY) {
        Some(list) => {
            let first = before_char(list, ',');
            if first.is_empty() || is_only(first, '-') {
                None
            } else {
                Some(first.to_string())
            }
        },
        None => None,
    };
    let request_time = match extract_kv_value(line, REQUEST_TIME_KEY) {
        Some(value) => if is_number_text(value) {
            Some(value.to_string())
        } else {
            None
        },
        None => None,
    };
    ParsedAccess { raw: line.to_string(), status, upstream_addr, upstream_status, request_time }
}

/// Reads the client's status from a line in the combined format.
pub fn parse_status_code_from_access(line: &str) -> (status: Option<u16>)
    ensures
        status == access_status(line@),
{
    match find_char(line, '"') {
        None => None,
        Some(opening) => {
            let quoted = skip_chars(line, opening + 1);
            match find_char(quoted, '"') {
                None => None,
                Some(closing) => match next_word(skip_chars(quoted, closing + 1)) {
                    None => None,
                    Some(word) => parse_u16(word),
                },
            }
        },
    }
}

/// Reads the value of the field that `key` begins.
pub fn extract_kv_value<'a>(line: &'a str, key: &str) -> (value: Option<&'a str>)
    ensures
        match value {
            Some(v) => field_value(line@, key@) == Some(v@),
            None => field_value(line@, key@) is None,
        },
{
    match find_text(line, key) {
        None => None,
        Some(at) => {
            let value = before_char(skip_chars(line, at + key.unicode_len()), ' ');
            if value.is_empty() || is_only(value, '-') {
                None
            } else {
                Some(value)
            }
        },
    }
}

/// Reads the status that one entry of an upstream's list spells.
pub fn parse_status_field(s: &str) -> (status: Option<u16>)
    ensures
        status == status_entry(s@),
{
    if is_only(s, '-') {
        return None;
    }
    parse_u16(trim(s, CharSet::WhiteSpace))
}

// ---------------------------------------------------------------------------
// Laws
// ---------------------------------------------------------------------------

/// White space before a word does not count.
pub proof fn lemma_skip_gap(gap: Seq<char>, rest: Seq<char>)
    requires
        forall|i: int| 0 <= i < gap.len() ==> white_space(#[trigger] gap[i]),
        rest.len() > 0 ==> !white_space(rest.first()),
    ensures
        trimmed_start(gap + rest, CharSet::WhiteSpace) == rest,
    decreases gap.len(),
{
    let s = gap + rest;
    if gap.len() > 0 {
        assert(white_space(gap[0]));
        assert(s.drop_first() =~= gap.drop_first() + rest);
        assert forall|i: int| 0 <= i < gap.drop_first().len() implies white_space(
            #[trigger] gap.drop_first()[i],
        ) by {
            assert(gap.drop_first()[i] == gap[i + 1]);
        }
        lemma_skip_gap(gap.drop_first(), rest);
    } else {
        assert(s =~= rest);
    }
}

/// A line in the combined format gives its status back: the word behind the
/// quoted request is what is read as a number, whatever stands around it.
pub proof fn law_status_follows_request(
    head: Seq<char>,
    request: Seq<char>,
    gap: Seq<char>,
    word: Seq<char>,
    tail: Seq<char>,
)
    requires
        !head.contains('"'),
        !request.contains('"'),
        forall|i: int| 0 <= i < gap.len() ==> white_space(#[trigger] gap[i]),
        word.len() > 0,
        forall|i: int| 0 <= i < word.len() ==> !white_space(#[trigger] word[i]),
        tail.len() > 0 ==> white_space(tail.first()),
    ensures
        access_status(head.push('"') + request.push('"') + gap + word + tail) == u16_value(word),
{
    let line = head.push('"') + request.push('"') + gap + word + tail;
    lemma_first_index(line, '"', head.len() as int);
    let quoted = line.skip(head.len() as int + 1);
    assert(quoted =~= request.push('"') + gap + word + tail);
    lemma_first_index(quoted, '"', request.len() as int);
    let after = quoted.skip(request.len() as int + 1);
    assert(after =~= gap + (word + tail));
    assert((word + tail).first() == word[0]);
    lemma_skip_gap(gap, word + tail);
    lemma_leading_word(word, tail);
}

/// A status that was written into a line in the combined format is the status
/// that is read from it.
pub proof fn law_status_reads_back(
    head: Seq<char>,
    request: Seq<char>,
    gap: Seq<char>,
    status: u16,
    tail: Seq<char>,
)
    requires
        !head.contains('"'),
        !request.contains('"'),
        forall|i: int| 0 <= i < gap.len() ==> white_space(#[trigger] gap[i]),
        tail.len() > 0 ==> white_space(tail.first()),
    ensures
        access_status(
            head.push('"') + request.push('"') + gap + decimal(status as nat) + tail,
        ) == Some(status),
{
    law_decimal_reads_back(status as nat);
    law_u16_round_trip(status);
    law_status_follows_request(head, request, gap, decimal(status as nat), tail);
}

/// Without two quotes a line has no status.
pub proof fn law_no_status_without_quotes(line: Seq<char>)
    requires
        forall|i: int, j: int|
            0 <= i < j < line.len() ==> #[trigger] line[i] != '"' || #[trigger] line[j] != '"',
    ensures
        access_status(line) is None,
{
    line.index_of_first_ensures('"');
    if let Some(opening) = first_index(line, '"') {
        let quoted = line.skip(opening + 1);
        assert forall|j: int| 0 <= j < quoted.len() implies quoted[j] != '"' by {
            assert(quoted[j] == line[opening + 1 + j]);
            assert(line[opening] == '"');
        }
        lemma_no_index(quoted, '"');
    }
}

/// A value without spaces behind the first key of a line, and up to a space or
/// the end of the line, is read from it.
pub proof fn lemma_value_is_read(
    head: Seq<char>,
    key: Seq<char>,
    value: Seq<char>,
    tail: Seq<char>,
)
    requires
        forall|i: int|
            0 <= i < head.len() ==> !#[trigger] occurs_at(head + key + value + tail, key, i),
        !value.contains(' '),
        tail.len() > 0 ==> tail.first() == ' ',
    ensures
        field_value(head + key + value + tail, key) == proper_value(value),
{
    let line = head + key + value + tail;
    let at = head.len() as int;
    assert(line.subrange(at, at + key.len()) =~= key);
    assert(first_occurs_at(line, key, at));
    lemma_first_occurrence(line, key, at);
    let rest = line.skip(at + key.len());
    assert(rest =~= value + tail);
    if tail.len() > 0 {
        lemma_first_index(rest, ' ', value.len() as int);
        assert(rest.take(value.len() as int) =~= value);
    } else {
        assert(rest =~= value);
        lemma_no_index(rest, ' ');
    }
}

/// A field that was written into a line is the value that is read from it: a
/// value without spaces, neither empty nor a dash, behind the first key of the
/// line, and up to a space or the end of the line.
pub proof fn law_field_reads_back(
    head: Seq<char>,
    key: Seq<char>,
    value: Seq<char>,
    tail: Seq<char>,
)
    requires
        forall|i: int|
            0 <= i < head.len() ==> !#[trigger] occurs_at(head + key + value + tail, key, i),
        !value.contains(' '),
        value.len() > 0,
        value != seq!['-'],
        tail.len() > 0 ==> tail.first() == ' ',
    ensures
        field_value(head + key + value + tail, key) == Some(value),
{
    lemma_value_is_read(head, key, value, tail);
}

/// A line that does not hold the key has no such field.
pub proof fn law_no_field_without_key(line: Seq<char>, key: Seq<char>)
    requires
        forall|i: int| !#[trigger] occurs_at(line, key, i),
    ensures
        field_value(line, key) is None,
{
    assert forall|i: int| !first_occurs_at(line, key, i) by {
        assert(!occurs_at(line, key, i));
    }
}

/// A value that is read from a line is never empty, never a dash alone, and
/// never holds a space.
pub proof fn law_field_is_proper(line: Seq<char>, key: Seq<char>)
    requires
        field_value(line, key) is Some,
    ensures
        field_value(line, key)->0.len() > 0,
        field_value(line, key)->0 != seq!['-'],
        !field_value(line, key)->0.contains(' '),
{
    let at = first_occurrence(line, key)->0;
    let rest = line.skip(at + key.len());
    rest.index_of_first_ensures(' ');
    let value = field_value(line, key)->0;
    if value.contains(' ') {
        let i = choose|i: int| 0 <= i < value.len() && value[i] == ' ';
        assert(rest[i] == ' ');
        assert(rest.contains(' '));
        assert(first_index(rest, ' ') is Some);
    }
}

/// A duration that is read from a line is the whole value of its field, and spells
/// a number.
pub proof fn law_duration_is_a_number(line: Seq<char>)
    ensures
        access_record(line).request_time is Some <==> field_value(line, REQUEST_TIME_KEY@) is Some
            && number_text(field_value(line, REQUEST_TIME_KEY@)->0),
        access_record(line).request_time is Some ==> access_record(line).request_time
            == field_value(line, REQUEST_TIME_KEY@),
{
}

/// Of a comma-separated list of upstream addresses the first counts.
pub proof fn law_first_upstream_counts(line: Seq<char>, first: Seq<char>, others: Seq<char>)
    requires
        field_value(line, UPSTREAM_ADDR_KEY@) == Some(first.push(',') + others),
        !first.contains(','),
        first.len() > 0,
        first != seq!['-'],
    ensures
        access_record(line).upstream_addr == Some(first),
{
    let list = first.push(',') + others;
    lemma_first_index(list, ',', first.len() as int);
    assert(list.take(first.len() as int) =~= first);
}

/// Of a comma-separated list of upstream statuses the first counts.
pub proof fn law_first_upstream_status_counts(line: Seq<char>, status: u16, others: Seq<char>)
    requires
        field_value(line, UPSTREAM_STATUS_KEY@) == Some(decimal(status as nat).push(',') + others),
    ensures
        access_record(line).upstream_status == Some(status),
{
    let first = decimal(status as nat);
    let list = first.push(',') + others;
    law_decimal_reads_back(status as nat);
    law_u16_round_trip(status);
    lemma_first_index(list, ',', first.len() as int);
    assert(list.take(first.len() as int) =~= first);
    assert(first[0] != '-');
    assert(seq!['-'][0] == '-');
    assert(trimmed(first, CharSet::WhiteSpace) == first);
}

/// A line says its own text, and its status is that of the combined format: the
/// number that is the first word behind the quoted request, and none where there
/// is no word.
pub proof fn law_status_of_a_line(
    head: Seq<char>,
    request: Seq<char>,
    gap: Seq<char>,
    word: Seq<char>,
    tail: Seq<char>,
)
    requires
        !head.contains('"'),
        !request.contains('"'),
        forall|i: int| 0 <= i < gap.len() ==> white_space(#[trigger] gap[i]),
        word.len() > 0,
        forall|i: int| 0 <= i < word.len() ==> !white_space(#[trigger] word[i]),
        tail.len() > 0 ==> white_space(tail.first()),
    ensures
        ({
            let line = head + seq!['"'] + request + seq!['"'] + gap + word + tail;
            let wordless = head + seq!['"'] + request + seq!['"'] + gap;
            &&& access_record(line).raw == line
            &&& access_record(line).status == u16_value(word)
            &&& access_record(wordless).status is None
        }),
{
    let line = head + seq!['"'] + request + seq!['"'] + gap + word + tail;
    assert(line =~= head.push('"') + request.push('"') + gap + word + tail);
    law_status_follows_request(head, request, gap, word, tail);
    let wordless = head + seq!['"'] + request + seq!['"'] + gap;
    assert forall|i: int| 0 <= i < head.len() implies wordless[i] != '"' by {
        assert(head.contains(head[i]));
    }
    lemma_first_index(wordless, '"', head.len() as int);
    let quoted = wordless.skip(head.len() as int + 1);
    assert(quoted =~= request + seq!['"'] + gap);
    assert forall|i: int| 0 <= i < request.len() implies quoted[i] != '"' by {
        assert(request.contains(request[i]));
    }
    lemma_first_index(quoted, '"', request.len() as int);
    assert(quoted.skip(request.len() as int + 1) =~= gap);
    law_first_word(gap, word, tail);
}

/// A field with nothing or a dash alone for its value is none.
pub proof fn law_missing_value_is_none(
    head: Seq<char>,
    key: Seq<char>,
    value: Seq<char>,
    tail: Seq<char>,
)
    requires
        forall|i: int|
            0 <= i < head.len() ==> !#[trigger] occurs_at(head + key + value + tail, key, i),
        value.len() == 0 || value == seq!['-'],
        tail.len() > 0 ==> tail.first() == ' ',
    ensures
        field_value(head + key + value + tail, key) is None,
{
    assert forall|i: int| 0 <= i < value.len() implies value[i] != ' ' by {}
    lemma_value_is_read(head, key, value, tail);
}

/// The first entry of a list: all of it where it has no comma.
proof fn lemma_first_entry(entry: Seq<char>, rest: Seq<char>)
    requires
        !entry.contains(','),
        rest.len() > 0 ==> rest.first() == ',',
    ensures
        before(entry + rest, ',') == entry,
{
    law_part_before_a_character(entry, rest, ',');
}

/// The upstream status of a line is the number that the first entry of its list
/// spells, apart from white space around it, whether the entry stands alone or
/// others follow. An entry of white space alone, and a field that is not there,
/// are none.
pub proof fn law_upstream_status_of_a_line(
    line: Seq<char>,
    gap: Seq<char>,
    word: Seq<char>,
    behind: Seq<char>,
    rest: Seq<char>,
)
    requires
        forall|i: int| 0 <= i < gap.len() ==> white_space(#[trigger] gap[i]),
        forall|i: int| 0 <= i < behind.len() ==> white_space(#[trigger] behind[i]),
        word.len() > 0 ==> !white_space(word.first()) && !white_space(word.last()),
        !(gap + word + behind).contains(','),
        rest.len() > 0 ==> rest.first() == ',',
    ensures
        field_value(line, "upstream_status="@) == Some(gap + word + behind + rest)
            ==> access_record(line).upstream_status == u16_value(word),
        field_value(line, "upstream_status="@) is None ==> access_record(line).upstream_status
            is None,
{
    let entry = gap + word + behind;
    lemma_first_entry(entry, rest);
    law_trimming_leaves_the_inside(gap, word, behind, CharSet::WhiteSpace);
    if entry == seq!['-'] {
        assert(!white_space('-'));
        if gap.len() > 0 {
            assert(entry[0] == gap[0]);
        } else if word.len() == 0 {
            assert(entry[0] == behind[0]);
        }
        assert(word =~= seq!['-']);
        law_no_number_in_a_dash();
    }
}

/// A dash spells no number.
pub proof fn law_no_number_in_a_dash()
    ensures
        u16_value(seq!['-']) is None,
{
    assert(!is_digit(seq!['-'][0]));
}

/// An upstream status that was written, alone or before others, is read back.
pub proof fn law_upstream_status_reads_back(line: Seq<char>, status: u16, rest: Seq<char>)
    requires
        rest.len() > 0 ==> rest.first() == ',',
        field_value(line, "upstream_status="@) == Some(decimal(status as nat) + rest),
    ensures
        access_record(line).upstream_status == Some(status),
{
    let none = Seq::<char>::empty();
    let word = decimal(status as nat);
    law_decimal_reads_back(status as nat);
    law_u16_round_trip(status);
    assert(is_digit(word[0]) && is_digit(word[word.len() - 1]));
    assert(none + word + none =~= word);
    assert forall|i: int| 0 <= i < word.len() implies word[i] != ',' by {
        assert(is_digit(word[i]));
    }
    law_upstream_status_of_a_line(line, none, word, none, rest);
}

/// The upstream address of a line is the first entry of its list, as it is,
/// whether the entry stands alone or others follow. An empty and a dashed entry,
/// and a field that is not there, are none.
pub proof fn law_upstream_addr_of_a_line(line: Seq<char>, entry: Seq<char>, rest: Seq<char>)
    requires
        !entry.contains(','),
        rest.len() > 0 ==> rest.first() == ',',
    ensures
        field_value(line, "upstream_addr="@) == Some(entry + rest) && entry.len() > 0 && entry
            != seq!['-'] ==> access_record(line).upstream_addr == Some(entry),
        field_value(line, "upstream_addr="@) == Some(entry + rest) && (entry.len() == 0 || entry
            == seq!['-']) ==> access_record(line).upstream_addr is None,
        field_value(line, "upstream_addr="@) is None ==> access_record(line).upstream_addr is None,
{
    lemma_first_entry(entry, rest);
}

/// The duration of a line is the value of its field, if that spells a number.
pub proof fn law_request_time_of_a_line(line: Seq<char>, value: Seq<char>)
    ensures
        field_value(line, "request_time="@) == Some(value) && number_text(value) ==> access_record(
            line,
        ).request_time == Some(value),
        field_value(line, "request_time="@) == Some(value) && !number_text(value)
            ==> access_record(line).request_time is None,
        field_value(line, "request_time="@) is None ==> access_record(line).request_time is None,
{
}

/// What a line says of its upstream and its duration is in its fields alone: two
/// lines with the same fields say the same of them, whatever else they hold.
pub proof fn law_fields_decide(a: Seq<char>, b: Seq<char>)
    ensures
        field_value(a, "upstream_status="@) == field_value(b, "upstream_status="@)
            ==> access_record(a).upstream_status == access_record(b).upstream_status,
        field_value(a, "upstream_addr="@) == field_value(b, "upstream_addr="@) ==> access_record(
            a,
        ).upstream_addr == access_record(b).upstream_addr,
        field_value(a, "request_time="@) == field_value(b, "request_time="@) ==> access_record(
            a,
        ).request_time == access_record(b).request_time,
{
}

/// Whatever a line holds, what is read of it begins with the line itself, and its
/// status is the one of the combined format.
pub proof fn law_line_is_kept(line: Seq<char>)
    ensures
        access_record(line).raw == line,
        access_record(line).status == access_status(line),
{
}

/// An entry of a list spells the number that stands in it between white space,
/// and none where there is nothing else.
pub proof fn law_entry_spells_its_number(gap: Seq<char>, word: Seq<char>, behind: Seq<char>)
    requires
        forall|i: int| 0 <= i < gap.len() ==> white_space(#[trigger] gap[i]),
        forall|i: int| 0 <= i < behind.len() ==> white_space(#[trigger] behind[i]),
        word.len() > 0 ==> !white_space(word.first()) && !white_space(word.last()),
    ensures
        status_entry(gap + word + behind) == u16_value(word),
{
    let entry = gap + word + behind;
    law_trimming_leaves_the_inside(gap, word, behind, CharSet::WhiteSpace);
    if entry == seq!['-'] {
        assert(!white_space('-'));
        if gap.len() > 0 {
            assert(entry[0] == gap[0]);
        } else if word.len() == 0 {
            assert(entry[0] == behind[0]);
        }
        assert(word =~= seq!['-']);
        law_no_number_in_a_dash();
    }
}

/// What was read of a line holds each thing that was read, as it is.
pub proof fn law_parsed_line_holds_what_was_read(parsed: ParsedAccess)
    ensures
        parsed@.raw == parsed.raw@,
        parsed@.status == parsed.status,
        parsed@.upstream_status == parsed.upstream_status,
        parsed.upstream_addr is None <==> parsed@.upstream_addr is None,
        parsed.upstream_addr is Some ==> parsed@.upstream_addr == Some(parsed.upstream_addr->0@),
        parsed.request_time is None <==> parsed@.request_time is None,
        parsed.request_time is Some ==> parsed@.request_time == Some(parsed.request_time->0@),
{
}

} // verus!
