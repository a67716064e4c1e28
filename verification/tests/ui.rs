use std::collections::VecDeque;

use nginx_logs::ui::{
    html_escape, render_limit_options, render_ui_page, tail_as_string, ui_limit, DEFAULT_LIMIT,
    MAX_LINES_PER_LOG,
};

fn queue(lines: &[&str]) -> VecDeque<String> {
    lines.iter().map(|line| line.to_string()).collect()
}

#[test]
fn markup_becomes_entities() {
    assert_eq!(html_escape(""), "");
    assert_eq!(html_escape("plain"), "plain");
    assert_eq!(html_escape("<b>&</b>"), "&lt;b&gt;&amp;&lt;/b&gt;");
    assert_eq!(html_escape("&lt;"), "&amp;lt;");
    assert_eq!(html_escape("\"quotes' stay\" \u{e9}"), "\"quotes' stay\" \u{e9}");
}

#[test]
fn escaping_is_three_replacements() {
    for s in ["", "a<b", "&&amp;<>", "x > y && y < z", "\u{1f600}<"] {
        assert_eq!(
            html_escape(s),
            s.replace('&', "&amp;").replace('<', "&lt;").replace('>', "&gt;")
        );
        assert!(!html_escape(s).contains('<'));
        assert!(!html_escape(s).contains('>'));
    }
}

#[test]
fn different_texts_are_escaped_differently() {
    let texts = ["&", "&amp;", "&amp;amp;", "<", "&lt;", ">", "&gt;", ""];
    for (i, a) in texts.iter().enumerate() {
        for (j, b) in texts.iter().enumerate() {
            assert_eq!(html_escape(a) == html_escape(b), i == j);
        }
    }
}

#[test]
fn the_tail_is_the_last_lines() {
    let lines = queue(&["a", "b", "c"]);
    assert_eq!(tail_as_string(&lines, 2), "b\nc");
    assert_eq!(tail_as_string(&lines, 3), "a\nb\nc");
    assert_eq!(tail_as_string(&lines, 10), "a\nb\nc");
    assert_eq!(tail_as_string(&lines, 1), "c");
    assert_eq!(tail_as_string(&lines, 0), "");
    assert_eq!(tail_as_string(&queue(&[]), 5), "");
    assert_eq!(tail_as_string(&queue(&["", "x", ""]), 5), "\nx\n");
}

#[test]
fn the_current_limit_is_selected() {
    assert_eq!(
        render_limit_options(200),
        "<option value=\"50\">50</option><option value=\"100\">100</option>\
         <option value=\"200\" selected>200</option><option value=\"500\">500</option>\
         <option value=\"1000\">1000</option>"
    );
    assert_eq!(
        render_limit_options(3),
        "<option value=\"50\">50</option><option value=\"100\">100</option>\
         <option value=\"200\">200</option><option value=\"500\">500</option>\
         <option value=\"1000\">1000</option>"
    );
    assert!(render_limit_options(50).starts_with("<option value=\"50\" selected>50</option>"));
}

#[test]
fn the_limit_is_kept_in_range() {
    assert_eq!(ui_limit(None), 50);
    assert_eq!(ui_limit(Some(0)), 1);
    assert_eq!(ui_limit(Some(1)), 1);
    assert_eq!(ui_limit(Some(137)), 137);
    assert_eq!(ui_limit(Some(2000)), 2000);
    assert_eq!(ui_limit(Some(2001)), 2000);
    assert_eq!(ui_limit(Some(usize::MAX)), 2000);
    assert_eq!(DEFAULT_LIMIT, 50);
    assert_eq!(MAX_LINES_PER_LOG, 2000);
}

#[test]
fn the_page_holds_both_logs() {
    let expected = format!(
        r#"<!DOCTYPE html>
<html>
<head>
  <meta charset="utf-8">
  <title>Nginx log viewer</title>
  <style>
    body {{ font-family: sans-serif; margin: 1rem; }}
    h1 {{ margin-bottom: 0.5rem; }}
    .logs-container {{ display: flex; gap: 1rem; }}
    .log-box {{ flex: 1; min-width: 0; }}
    pre {{ background: #111; color: #eee; padding: 0.5rem; border-radius: 4px;
          max-height: 70vh; overflow-y: auto; font-size: 12px; }}
    form {{ margin-bottom: 1rem; }}
    label {{ margin-right: 0.5rem; }}
    select {{ padding: 0.2rem; }}
    button {{ padding: 0.2rem 0.6rem; }}
  </style>
</head>
<body>
  <h1>Nginx logs</h1>
  <form method="get" action="">
    <label for="limit">Lines per log:</label>
    <select name="limit" id="limit">
      {options}
    </select>
    <button type="submit">Reload</button>
  </form>
  <div class="logs-container">
    <div class="log-box">
      <h2>access.log (last {limit} lines)</h2>
      <pre>{access}</pre>
    </div>
    <div class="log-box">
      <h2>error.log (last {limit} lines)</h2>
      <pre>{error}</pre>
    </div>
  </div>
</body>
</html>
"#,
        limit = 100,
        access = "GET &lt;a&gt; &amp;\nsecond",
        error = "oops",
        options = render_limit_options(100),
    );
    assert_eq!(render_ui_page(100, "GET <a> &\nsecond", "oops"), expected);
}

#[test]
fn the_logs_add_no_markup_to_the_page() {
    let plain = render_ui_page(50, "", "");
    let page = render_ui_page(50, "<script>alert(1)</script>", "</pre><b>");
    for bracket in ['<', '>'] {
        assert_eq!(page.matches(bracket).count(), plain.matches(bracket).count());
    }
}
