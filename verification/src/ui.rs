//! The page that shows the latest lines of both logs.
use std::collections::VecDeque;
use vstd::prelude::*;

use crate::number::{decimal, push_decimal};
use crate::text::{
    chars_of, joined, lemma_no_occurrences, lemma_occurrences_add_up, occurrences, texts,
};

verus! {

/// The number of lines that each log keeps, and the most that the page shows.
pub const MAX_LINES_PER_LOG: usize = 2000;

/// The number of lines that the page shows where none is asked for.
pub const DEFAULT_LIMIT: usize = 50;

/// The page up to the choices of a limit.
pub const PAGE_HEAD: &'static str = r#"<!DOCTYPE html>
<html>
<head>
  <meta charset="utf-8">
  <title>Nginx log viewer</title>
  <style>
    body { font-family: sans-serif; margin: 1rem; }
    h1 { margin-bottom: 0.5rem; }
    .logs-container { display: flex; gap: 1rem; }
    .log-box { flex: 1; min-width: 0; }
    pre { background: #111; color: #eee; padding: 0.5rem; border-radius: 4px;
          max-height: 70vh; overflow-y: auto; font-size: 12px; }
    form { margin-bottom: 1rem; }
    label { margin-right: 0.5rem; }
    select { padding: 0.2rem; }
    button { padding: 0.2rem 0.6rem; }
  </style>
</head>
<body>
  <h1>Nginx logs</h1>
  <form method="get" action="">
    <label for="limit">Lines per log:</label>
    <select name="limit" id="limit">
      "#;

/// The page from there to the limit in the heading of the access log.
pub const PAGE_ACCESS: &'static str = r#"
    </select>
    <button type="submit">Reload</button>
  </form>
  <div class="logs-container">
    <div class="log-box">
      <h2>access.log (last "#;

/// The page from a heading's limit to the lines below it.
pub const PAGE_LINES: &'static str = r#" lines)</h2>
      <pre>"#;

/// The page from the lines of the access log to the limit in the heading of the
/// error log.
pub const PAGE_ERROR: &'static str = r#"</pre>
    </div>
    <div class="log-box">
      <h2>error.log (last "#;

/// The rest of the page.
pub const PAGE_END: &'static str = r#"</pre>
    </div>
  </div>
</body>
</html>
"#;

/// The last `count` of `lines`; all of them where there are fewer.
pub open spec fn latest<A>(lines: Seq<A>, count: nat) -> Seq<A> {
    if lines.len() > count {
        lines.skip(lines.len() - count)
    } else {
        lines
    }
}

/// What stands for `c` in a page.
pub open spec fn entity(c: char) -> Seq<char> {
    match c {
        '&' => "&amp;"@,
        '<' => "&lt;"@,
        '>' => "&gt;"@,
        _ => seq![c],
    }
}

/// `s` as it is written into a page: markup characters become entities.
pub open spec fn escaped(s: Seq<char>) -> Seq<char>
    decreases s.len(),
{
    if s.len() == 0 {
        Seq::empty()
    } else {
        entity(s.first()) + escaped(s.drop_first())
    }
}

/// Writes a text so that a page shows it as it is.
pub fn html_escape(s: &str) -> (text: String)
    ensures
        text@ == escaped(s@),
{
    let chars = chars_of(s);
    let mut text = String::new();
    let mut i: usize = 0;
    assert(chars@.skip(0) =~= chars@);
    assert(text@ + escaped(chars@) =~= escaped(chars@));
    while i < chars.len()
        invariant
            i <= chars.len(),
            text@ + escaped(chars@.skip(i as int)) == escaped(chars@),
        decreases chars.len() - i,
    {
        let c = chars[i];
        let ghost before = text@;
        let ghost rest = chars@.skip(i as int);
        match c {
            '&' => text.append("&amp;"),
            '<' => text.append("&lt;"),
            '>' => text.append("&gt;"),
            _ => text.push(c),
        }
        assert(text@ =~= before + entity(c));
        assert(rest.first() == c);
        assert(rest.drop_first() =~= chars@.skip(i + 1));
        assert(before + (entity(c) + escaped(rest.drop_first())) =~= (before + entity(c))
            + escaped(rest.drop_first()));
        i = i + 1;
    }
    assert(text@ + escaped(chars@.skip(i as int)) =~= text@);
    text
}

/// The last `limit` lines of a log, one below the other.
pub fn tail_as_string(lines: &VecDeque<String>, limit: usize) -> (text: String)
    ensures
        text@ == joined(latest(texts(lines@), limit as nat)),
{
    let len: usize = lines.len();
    let start: usize = len.saturating_sub(limit);
    let ghost shown = latest(texts(lines@), limit as nat);
    assert(shown =~= texts(lines@).skip(start as int));
    let mut text = String::new();
    let mut i: usize = start;
    while i < len
        invariant
            start <= i <= len,
            len == lines@.len(),
            shown == texts(lines@).skip(start as int),
            text@ == joined(shown.take(i - start)),
        decreases len - i,
    {
        let ghost done = shown.take(i - start);
        let ghost before = text@;
        if i > start {
            text.push('\n');
        }
        text.append(lines[i].as_str());
        assert(shown.take(i + 1 - start).drop_last() =~= done);
        assert(shown.take(i + 1 - start).last() == lines@[i as int]@);
        if i == start {
            assert(done =~= Seq::empty());
            assert(text@ =~= lines@[i as int]@);
        }
        i = i + 1;
    }
    assert(shown.take(len - start) =~= shown);
    text
}

/// One choice of a limit in the page.
pub open spec fn limit_option(value: nat, current: nat) -> Seq<char> {
    "<option value=\""@ + decimal(value) + "\""@ + (if value == current {
        " selected"@
    } else {
        ""@
    }) + ">"@ + decimal(value) + "</option>"@
}

/// The choices of a limit in the page.
pub open spec fn limit_options(current: nat) -> Seq<char> {
    limit_option(50, current) + limit_option(100, current) + limit_option(200, current)
        + limit_option(500, current) + limit_option(1000, current)
}

/// Appends one choice of a limit.
fn push_limit_option(out: &mut String, value: usize, current: usize)
    ensures
        final(out)@ == old(out)@ + limit_option(value as nat, current as nat),
{
    out.append("<option value=\"");
    push_decimal(out, value as u64);
    out.append("\"");
    let selected = if value == current {
        " selected"
    } else {
        ""
    };
    out.append(selected);
    out.append(">");
    push_decimal(out, value as u64);
    out.append("</option>");
    assert(out@ =~= old(out)@ + limit_option(value as nat, current as nat));
}

/// Writes the choices of a limit, of which the current one is selected.
pub fn render_limit_options(current: usize) -> (text: String)
    ensures
        text@ == limit_options(current as nat),
{
    let mut text = String::new();
    push_limit_option(&mut text, 50, current);
    push_limit_option(&mut text, 100, current);
    push_limit_option(&mut text, 200, current);
    push_limit_option(&mut text, 500, current);
    push_limit_option(&mut text, 1000, current);
    assert(text@ =~= limit_options(current as nat));
    text
}

/// The page for a limit and the text of both logs.
pub open spec fn ui_page(limit: nat, access: Seq<char>, error: Seq<char>) -> Seq<char> {
    PAGE_HEAD@ + limit_options(limit) + PAGE_ACCESS@ + decimal(limit) + PAGE_LINES@ + escaped(access)
        + PAGE_ERROR@ + decimal(limit) + PAGE_LINES@ + escaped(error) + PAGE_END@
}

/// Writes the page.
pub fn render_ui_page(limit: usize, access: &str, error: &str) -> (page: String)
    ensures
        page@ == ui_page(limit as nat, access@, error@),
{
    let mut page = String::new();
    page.append(PAGE_HEAD);
    page.append(render_limit_options(limit).as_str());
    page.append(PAGE_ACCESS);
    push_decimal(&mut page, limit as u64);
    page.append(PAGE_LINES);
    page.append(html_escape(access).as_str());
    page.append(PAGE_ERROR);
    push_decimal(&mut page, limit as u64);
    page.append(PAGE_LINES);
    page.append(html_escape(error).as_str());
    page.append(PAGE_END);
    assert(page@ =~= ui_page(limit as nat, access@, error@));
    page
}

/// The number of lines that the page shows: what is asked for, but at least one
/// and at most as many as a log keeps.
pub open spec fn shown_limit(asked: Option<usize>) -> usize {
    let limit = match asked {
        Some(n) => n,
        None => DEFAULT_LIMIT,
    };
    if limit < 1 {
        1
    } else if limit > MAX_LINES_PER_LOG {
        MAX_LINES_PER_LOG
    } else {
        limit
    }
}

/// The number of lines that the page shows.
pub fn ui_limit(asked: Option<usize>) -> (limit: usize)
    ensures
        limit == shown_limit(asked),
{
    let limit: usize = match asked {
        Some(n) => n,
        None => DEFAULT_LIMIT,
    };
    if limit < 1 {
        1
    } else if limit > MAX_LINES_PER_LOG {
        MAX_LINES_PER_LOG
    } else {
        limit
    }
}

// ---------------------------------------------------------------------------
// Laws
// ---------------------------------------------------------------------------

/// What an entity begins with, and what it does not hold.
proof fn lemma_entity(c: char)
    ensures
        entity(c).len() > 0,
        !entity(c).contains('<'),
        !entity(c).contains('>'),
        c != '&' && c != '<' && c != '>' ==> entity(c) == seq![c] && entity(c)[0] != '&',
        c == '&' ==> entity(c).len() == 5 && entity(c)[0] == '&' && entity(c)[1] == 'a',
        c == '<' ==> entity(c).len() == 4 && entity(c)[0] == '&' && entity(c)[1] == 'l',
        c == '>' ==> entity(c).len() == 4 && entity(c)[0] == '&' && entity(c)[1] == 'g',
{
    reveal_strlit("&amp;");
    reveal_strlit("&lt;");
    reveal_strlit("&gt;");
}

/// A text that was escaped holds no markup brackets, so that nothing in a log
/// can open or close an element of the page.
pub proof fn law_escaped_text_has_no_markup(s: Seq<char>)
    ensures
        !escaped(s).contains('<'),
        !escaped(s).contains('>'),
    decreases s.len(),
{
    if s.len() > 0 {
        law_escaped_text_has_no_markup(s.drop_first());
        lemma_entity(s.first());
        let head = entity(s.first());
        let tail = escaped(s.drop_first());
        assert forall|i: int| 0 <= i < escaped(s).len() implies escaped(s)[i] != '<' && escaped(
            s,
        )[i] != '>' by {
            if i < head.len() {
                assert(escaped(s)[i] == head[i]);
                assert(head.contains(head[i]));
            } else {
                assert(escaped(s)[i] == tail[i - head.len()]);
                assert(tail.contains(tail[i - head.len()]));
            }
        }
    }
}

/// The logs add no markup to the page: whatever they hold, the page has as many
/// brackets as it has without them.
pub proof fn law_logs_add_no_markup(limit: nat, access: Seq<char>, error: Seq<char>, c: char)
    requires
        c == '<' || c == '>',
    ensures
        occurrences(ui_page(limit, access, error), c) == occurrences(
            ui_page(limit, Seq::empty(), Seq::empty()),
            c,
        ),
{
    lemma_page_markup(limit, access, error, c);
    lemma_page_markup(limit, Seq::empty(), Seq::empty(), c);
}

/// How much markup the parts of a page hold.
proof fn lemma_page_markup(limit: nat, access: Seq<char>, error: Seq<char>, c: char)
    requires
        c == '<' || c == '>',
    ensures
        occurrences(ui_page(limit, access, error), c) == occurrences(PAGE_HEAD@, c) + occurrences(
            limit_options(limit),
            c,
        ) + occurrences(PAGE_ACCESS@, c) + occurrences(decimal(limit), c) + occurrences(
            PAGE_LINES@,
            c,
        ) + occurrences(PAGE_ERROR@, c) + occurrences(decimal(limit), c) + occurrences(
            PAGE_LINES@,
            c,
        ) + occurrences(PAGE_END@, c),
{
    law_escaped_text_has_no_markup(access);
    law_escaped_text_has_no_markup(error);
    lemma_no_occurrences(escaped(access), c);
    lemma_no_occurrences(escaped(error), c);
    let p1 = PAGE_HEAD@ + limit_options(limit);
    lemma_occurrences_add_up(PAGE_HEAD@, limit_options(limit), c);
    let p2 = p1 + PAGE_ACCESS@;
    lemma_occurrences_add_up(p1, PAGE_ACCESS@, c);
    let p3 = p2 + decimal(limit);
    lemma_occurrences_add_up(p2, decimal(limit), c);
    let p4 = p3 + PAGE_LINES@;
    lemma_occurrences_add_up(p3, PAGE_LINES@, c);
    let p5 = p4 + escaped(access);
    lemma_occurrences_add_up(p4, escaped(access), c);
    let p6 = p5 + PAGE_ERROR@;
    lemma_occurrences_add_up(p5, PAGE_ERROR@, c);
    let p7 = p6 + decimal(limit);
    lemma_occurrences_add_up(p6, decimal(limit), c);
    let p8 = p7 + PAGE_LINES@;
    lemma_occurrences_add_up(p7, PAGE_LINES@, c);
    let p9 = p8 + escaped(error);
    lemma_occurrences_add_up(p8, escaped(error), c);
    lemma_occurrences_add_up(p9, PAGE_END@, c);
}

/// Two texts that are escaped alike are the same text: escaping loses nothing.
pub proof fn law_escape_is_injective(a: Seq<char>, b: Seq<char>)
    requires
        escaped(a) == escaped(b),
    ensures
        a == b,
    decreases a.len() + b.len(),
{
    if a.len() > 0 {
        lemma_entity(a.first());
        assert(escaped(a).len() > 0 && escaped(a)[0] == entity(a.first())[0]);
    } else {
        assert(escaped(a).len() == 0);
    }
    if b.len() > 0 {
        lemma_entity(b.first());
        assert(escaped(b).len() > 0 && escaped(b)[0] == entity(b.first())[0]);
    } else {
        assert(escaped(b).len() == 0);
    }
    if a.len() == 0 || b.len() == 0 {
        assert(a =~= b);
    } else {
        if entity(a.first()).len() > 1 {
            assert(escaped(a)[1] == entity(a.first())[1]);
        }
        if entity(b.first()).len() > 1 {
            assert(escaped(b)[1] == entity(b.first())[1]);
        }
        assert(a.first() == b.first());
        let n = entity(a.first()).len() as int;
        assert(escaped(a).skip(n) =~= escaped(a.drop_first()));
        assert(escaped(b).skip(n) =~= escaped(b.drop_first()));
        law_escape_is_injective(a.drop_first(), b.drop_first());
        assert(a =~= seq![a.first()] + a.drop_first());
        assert(b =~= seq![b.first()] + b.drop_first());
    }
}

/// `s` with `by` in place of each `c`.
pub open spec fn replaced(s: Seq<char>, c: char, by: Seq<char>) -> Seq<char>
    decreases s.len(),
{
    if s.len() == 0 {
        Seq::empty()
    } else if s.first() == c {
        by + replaced(s.drop_first(), c, by)
    } else {
        seq![s.first()] + replaced(s.drop_first(), c, by)
    }
}

/// Replacing goes on part by part.
proof fn lemma_replaced_parts(a: Seq<char>, b: Seq<char>, c: char, by: Seq<char>)
    ensures
        replaced(a + b, c, by) == replaced(a, c, by) + replaced(b, c, by),
    decreases a.len(),
{
    if a.len() == 0 {
        assert(a + b =~= b);
        assert(replaced(a, c, by) + replaced(b, c, by) =~= replaced(b, c, by));
    } else {
        assert((a + b).drop_first() =~= a.drop_first() + b);
        lemma_replaced_parts(a.drop_first(), b, c, by);
        let front = if a.first() == c {
            by
        } else {
            seq![a.first()]
        };
        assert(front + (replaced(a.drop_first(), c, by) + replaced(b, c, by)) =~= (front
            + replaced(a.drop_first(), c, by)) + replaced(b, c, by));
    }
}

/// Where a character does not occur, there is nothing to replace.
proof fn lemma_nothing_replaced(s: Seq<char>, c: char, by: Seq<char>)
    requires
        !s.contains(c),
    ensures
        replaced(s, c, by) == s,
    decreases s.len(),
{
    if s.len() > 0 {
        assert(s.contains(s[0]));
        assert forall|i: int| 0 <= i < s.drop_first().len() implies s.drop_first()[i] != c by {
            assert(s.contains(s[i + 1]));
        }
        lemma_nothing_replaced(s.drop_first(), c, by);
        assert(seq![s.first()] + s.drop_first() =~= s);
    } else {
        assert(s =~= Seq::empty());
    }
}

/// What replacing makes of one character.
proof fn lemma_replaced_one(one: char, c: char, by: Seq<char>)
    ensures
        replaced(seq![one], c, by) == if one == c {
            by
        } else {
            seq![one]
        },
{
    let rest = seq![one].drop_first();
    assert(rest =~= Seq::<char>::empty());
    assert(replaced(rest, c, by) =~= Seq::<char>::empty());
    assert(by + replaced(rest, c, by) =~= by);
    assert(seq![one] + replaced(rest, c, by) =~= seq![one]);
}

/// The replacements for one character, in the order of the three passes.
proof fn lemma_three_passes_on_one(c: char)
    ensures
        replaced(
            replaced(replaced(seq![c], '&', "&amp;"@), '<', "&lt;"@),
            '>',
            "&gt;"@,
        ) == entity(c),
{
    reveal_strlit("&amp;");
    reveal_strlit("&lt;");
    reveal_strlit("&gt;");
    lemma_replaced_one(c, '&', "&amp;"@);
    lemma_replaced_one(c, '<', "&lt;"@);
    lemma_replaced_one(c, '>', "&gt;"@);
    if c == '&' {
        lemma_nothing_replaced("&amp;"@, '<', "&lt;"@);
        lemma_nothing_replaced("&amp;"@, '>', "&gt;"@);
    } else if c == '<' {
        lemma_nothing_replaced("&lt;"@, '>', "&gt;"@);
    }
}

/// Escaping is three replacements, one after the other: first the ampersands,
/// then the opening and then the closing brackets. The ampersands of the
/// entities are not replaced again.
pub proof fn law_escape_is_three_replacements(s: Seq<char>)
    ensures
        escaped(s) == replaced(
            replaced(replaced(s, '&', "&amp;"@), '<', "&lt;"@),
            '>',
            "&gt;"@,
        ),
    decreases s.len(),
{
    if s.len() > 0 {
        let one = seq![s.first()];
        let rest = s.drop_first();
        assert(s =~= one + rest);
        law_escape_is_three_replacements(rest);
        lemma_three_passes_on_one(s.first());
        lemma_replaced_parts(one, rest, '&', "&amp;"@);
        let one_1 = replaced(one, '&', "&amp;"@);
        let rest_1 = replaced(rest, '&', "&amp;"@);
        lemma_replaced_parts(one_1, rest_1, '<', "&lt;"@);
        let one_2 = replaced(one_1, '<', "&lt;"@);
        let rest_2 = replaced(rest_1, '<', "&lt;"@);
        lemma_replaced_parts(one_2, rest_2, '>', "&gt;"@);
    }
}

/// The page shows at least one line and at most as many as a log keeps; a limit
/// within that range is kept, and without one it is the default.
pub proof fn law_limit_is_in_range(asked: Option<usize>)
    ensures
        1 <= shown_limit(asked) <= MAX_LINES_PER_LOG,
        asked is Some && 1 <= asked->0 <= MAX_LINES_PER_LOG ==> shown_limit(asked) == asked->0,
        asked is None ==> shown_limit(asked) == DEFAULT_LIMIT,
{
}

/// The latest lines are the end of all lines, and no more than were asked for.
pub proof fn law_latest_is_a_suffix<A>(lines: Seq<A>, count: nat)
    ensures
        latest(lines, count).is_suffix_of(lines),
        latest(lines, count).len() == if lines.len() < count {
            lines.len()
        } else {
            count
        },
{
}

/// Whatever the limit, the page holds the text of each log in a box of its own,
/// that of the access log first: below a heading with the limit, escaped, and up
/// to the next tag.
pub proof fn law_page_holds_both_logs(limit: nat, access: Seq<char>, error: Seq<char>)
    ensures
        ui_page(limit, access, error) == (PAGE_HEAD@ + limit_options(limit)) + (PAGE_ACCESS@
            + decimal(limit) + PAGE_LINES@ + escaped(access)) + (PAGE_ERROR@ + decimal(limit)
            + PAGE_LINES@ + escaped(error) + PAGE_END@),
        PAGE_LINES@.len() > 5,
        PAGE_LINES@.skip(PAGE_LINES@.len() - 5) == "<pre>"@,
        PAGE_ERROR@.take(6) == "</pre>"@,
        PAGE_END@.take(6) == "</pre>"@,
{
    lemma_box_tags();
    assert(ui_page(limit, access, error) =~= (PAGE_HEAD@ + limit_options(limit)) + (PAGE_ACCESS@
        + decimal(limit) + PAGE_LINES@ + escaped(access)) + (PAGE_ERROR@ + decimal(limit)
        + PAGE_LINES@ + escaped(error) + PAGE_END@));
}

/// The tags around the text of a box.
proof fn lemma_box_tags()
    ensures
        PAGE_LINES@.len() > 5,
        PAGE_LINES@.skip(PAGE_LINES@.len() - 5) == "<pre>"@,
        PAGE_ERROR@.len() > 6,
        PAGE_ERROR@.take(6) == "</pre>"@,
        PAGE_ERROR@.first() == '<',
        PAGE_END@.len() > 6,
        PAGE_END@.take(6) == "</pre>"@,
        PAGE_END@.first() == '<',
{
    reveal_strlit(
        r#" lines)</h2>
      <pre>"#,
    );
    reveal_strlit(
        r#"</pre>
    </div>
    <div class="log-box">
      <h2>error.log (last "#,
    );
    reveal_strlit(
        r#"</pre>
    </div>
  </div>
</body>
</html>
"#,
    );
    reveal_strlit("<pre>");
    reveal_strlit("</pre>");
    assert(PAGE_LINES@.skip(PAGE_LINES@.len() - 5) =~= "<pre>"@);
    assert(PAGE_ERROR@.take(6) =~= "</pre>"@);
    assert(PAGE_END@.take(6) =~= "</pre>"@);
}

/// Texts without a bracket that a bracket follows are the same if they begin the
/// same text.
proof fn lemma_same_up_to_tag(a: Seq<char>, x: Seq<char>, b: Seq<char>, y: Seq<char>)
    requires
        !a.contains('<'),
        !b.contains('<'),
        x.len() > 0 && x.first() == '<',
        y.len() > 0 && y.first() == '<',
        a + x == b + y,
    ensures
        a == b,
        x == y,
{
    let s = a + x;
    assert(s[a.len() as int] == '<');
    assert((b + y)[b.len() as int] == '<');
    if a.len() < b.len() {
        assert((b + y)[a.len() as int] == b[a.len() as int]);
        assert(b.contains(b[a.len() as int]));
    } else if b.len() < a.len() {
        assert(s[b.len() as int] == a[b.len() as int]);
        assert(a.contains(a[b.len() as int]));
    }
    assert(s.take(a.len() as int) =~= a);
    assert((b + y).take(b.len() as int) =~= b);
    assert(s.skip(a.len() as int) =~= x);
    assert((b + y).skip(b.len() as int) =~= y);
}

/// Nothing of either log is lost in the page: two pages for the same limit are
/// the same only if both logs are.
#[verifier::rlimit(30)]
pub proof fn law_page_tells_the_logs(
    limit: nat,
    access: Seq<char>,
    error: Seq<char>,
    other_access: Seq<char>,
    other_error: Seq<char>,
)
    requires
        ui_page(limit, access, error) == ui_page(limit, other_access, other_error),
    ensures
        access == other_access,
        error == other_error,
{
    law_page_holds_both_logs(limit, access, error);
    law_page_holds_both_logs(limit, other_access, other_error);
    lemma_box_tags();
    let top = PAGE_HEAD@ + limit_options(limit) + (PAGE_ACCESS@ + decimal(limit) + PAGE_LINES@);
    let middle = PAGE_ERROR@ + decimal(limit) + PAGE_LINES@;
    let page = ui_page(limit, access, error);
    let rest = middle + (escaped(error) + PAGE_END@);
    let other_rest = middle + (escaped(other_error) + PAGE_END@);
    assert(page =~= top + (escaped(access) + rest));
    assert(page =~= top + (escaped(other_access) + other_rest));
    assert(page.skip(top.len() as int) =~= escaped(access) + rest);
    assert(page.skip(top.len() as int) =~= escaped(other_access) + other_rest);
    law_escaped_text_has_no_markup(access);
    law_escaped_text_has_no_markup(other_access);
    law_escaped_text_has_no_markup(error);
    law_escaped_text_has_no_markup(other_error);
    assert(rest.first() == PAGE_ERROR@.first());
    assert(other_rest.first() == PAGE_ERROR@.first());
    lemma_same_up_to_tag(escaped(access), rest, escaped(other_access), other_rest);
    law_escape_is_injective(access, other_access);
    assert(rest.skip(middle.len() as int) =~= escaped(error) + PAGE_END@);
    assert(other_rest.skip(middle.len() as int) =~= escaped(other_error) + PAGE_END@);
    lemma_same_up_to_tag(escaped(error), PAGE_END@, escaped(other_error), PAGE_END@);
    law_escape_is_injective(error, other_error);
}

/// Escaping goes on character by character: three characters become their
/// entities, and every other stays as it is.
pub proof fn law_escape_goes_by_characters(a: Seq<char>, b: Seq<char>, c: char)
    ensures
        escaped(Seq::empty()) == Seq::<char>::empty(),
        escaped(a + b) == escaped(a) + escaped(b),
        escaped(seq!['&']) == seq!['&', 'a', 'm', 'p', ';'],
        escaped(seq!['<']) == seq!['&', 'l', 't', ';'],
        escaped(seq!['>']) == seq!['&', 'g', 't', ';'],
        c != '&' && c != '<' && c != '>' ==> escaped(seq![c]) == seq![c],
    decreases a.len(),
{
    reveal_strlit("&amp;");
    reveal_strlit("&lt;");
    reveal_strlit("&gt;");
    lemma_escaped_one('&');
    lemma_escaped_one('<');
    lemma_escaped_one('>');
    lemma_escaped_one(c);
    assert("&amp;"@ =~= seq!['&', 'a', 'm', 'p', ';']);
    assert("&lt;"@ =~= seq!['&', 'l', 't', ';']);
    assert("&gt;"@ =~= seq!['&', 'g', 't', ';']);
    if a.len() == 0 {
        assert(a + b =~= b);
        assert(escaped(a) + escaped(b) =~= escaped(b));
    } else {
        assert((a + b).drop_first() =~= a.drop_first() + b);
        law_escape_goes_by_characters(a.drop_first(), b, c);
        assert(entity(a.first()) + (escaped(a.drop_first()) + escaped(b)) =~= escaped(a)
            + escaped(b));
    }
}

/// One character, escaped.
proof fn lemma_escaped_one(c: char)
    ensures
        escaped(seq![c]) == entity(c),
{
    let rest = seq![c].drop_first();
    assert(rest =~= Seq::<char>::empty());
    assert(escaped(rest) =~= Seq::<char>::empty());
    assert(entity(c) + escaped(rest) =~= entity(c));
}

/// A choice of a list, which is selected or not.
pub open spec fn option_markup(label: Seq<char>, selected: bool) -> Seq<char> {
    "<option value=\""@ + label + (if selected {
        "\" selected>"@
    } else {
        "\">"@
    }) + label + "</option>"@
}

/// The page offers five limits, in this order, and of these the one that it shows
/// is selected, and no other.
pub proof fn law_five_limits_are_offered(current: nat)
    ensures
        limit_options(current) == option_markup("50"@, current == 50) + option_markup(
            "100"@,
            current == 100,
        ) + option_markup("200"@, current == 200) + option_markup("500"@, current == 500)
            + option_markup("1000"@, current == 1000),
{
    reveal_strlit("50");
    reveal_strlit("100");
    reveal_strlit("200");
    reveal_strlit("500");
    reveal_strlit("1000");
    reveal_with_fuel(decimal, 4);
    assert(decimal(50) =~= "50"@);
    assert(decimal(100) =~= "100"@);
    assert(decimal(200) =~= "200"@);
    assert(decimal(500) =~= "500"@);
    assert(decimal(1000) =~= "1000"@);
    lemma_option(50, current);
    lemma_option(100, current);
    lemma_option(200, current);
    lemma_option(500, current);
    lemma_option(1000, current);
}

/// One choice of a limit.
proof fn lemma_option(value: nat, current: nat)
    ensures
        limit_option(value, current) == option_markup(decimal(value), current == value),
{
    reveal_strlit("\"");
    reveal_strlit(">");
    reveal_strlit(" selected");
    reveal_strlit("");
    reveal_strlit("\" selected>");
    reveal_strlit("\">");
    assert(limit_option(value, current) =~= option_markup(decimal(value), current == value));
}

/// The limit is what is asked for, moved into the range from one to two thousand,
/// and fifty where nothing is asked for.
pub proof fn law_limit_is_clamped(asked: usize)
    ensures
        shown_limit(None) == 50,
        asked == 0 ==> shown_limit(Some(asked)) == 1,
        1 <= asked <= 2000 ==> shown_limit(Some(asked)) == asked,
        asked > 2000 ==> shown_limit(Some(asked)) == 2000,
{
}

/// A line is among the latest if and only if fewer lines than are asked for come
/// behind it, and the latest lines keep their order.
pub proof fn law_latest_lines_by_position<A>(lines: Seq<A>, count: nat, i: int)
    requires
        0 <= i < lines.len(),
        lines.len() - i <= count,
    ensures
        latest(lines, count).len() >= lines.len() - i,
        latest(lines, count)[latest(lines, count).len() - (lines.len() - i)] == lines[i],
        latest(lines, count).len() <= count,
{
}

} // verus!
