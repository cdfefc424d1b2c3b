//! Tests of the HTML post-processing scanners.

use aoike::summary::extract_html_summary;
use aoike::remove::remove_html_tag;
use aoike::content::{get_tag_content, get_html_h1};
use aoike::refs::get_ref_paths;

/// Counts non-whitespace characters outside `<...>` constructs.
fn visible_chars(s: &str) -> usize {
    let mut count = 0;
    let mut in_tag = false;
    for c in s.chars() {
        if in_tag {
            if c == '>' {
                in_tag = false;
            }
        } else if c == '<' {
            in_tag = true;
        } else if !c.is_whitespace() {
            count += 1;
        }
    }
    count
}

#[test]
fn summary_short_fragment_returned_whole() {
    let html = "<p>short text</p>";
    assert_eq!(extract_html_summary(html, 200), html);
}

#[test]
fn summary_empty_fragment() {
    assert_eq!(extract_html_summary("", 10), "");
}

#[test]
fn summary_truncates_with_ellipsis_and_closing_tags() {
    let out = extract_html_summary("<div><p>abcdefgh</p></div>", 3);
    assert_eq!(out, "<div><p>abc...</p></div>");
}

#[test]
fn summary_whitespace_is_free() {
    let out = extract_html_summary("<p>a b c d</p>", 4);
    assert_eq!(out, "<p>a b c d</p>");
}

#[test]
fn summary_tag_balance_on_truncation() {
    // tag balance: every opened tag is closed again (the scan's stack
    // empties), even though the cut point falls inside nested markup
    let out = extract_html_summary("<div><em><b>abcdef</b>gh</em>ij</div>", 2);
    assert_eq!(out, "<div><em><b>ab...</b></em></div>");
    let mut depth: i64 = 0;
    let mut in_tag = false;
    let mut closing = false;
    let mut prev = ' ';
    for c in out.chars() {
        if !in_tag && c == '<' {
            in_tag = true;
            closing = false;
        } else if in_tag && prev == '<' {
            closing = c == '/';
            if c != '/' {
                depth += 1;
            }
        } else if in_tag && c == '>' {
            if closing {
                depth -= 1;
            }
            in_tag = false;
        }
        prev = c;
    }
    assert_eq!(depth, 0);
}

#[test]
fn summary_length_bound_exact() {
    // length bound: exactly the budget's visible characters are kept, plus
    // the three-dot marker
    let html = "<p>abcdefghijklmnopqrstuvwxyz</p>";
    let out = extract_html_summary(html, 10);
    assert_eq!(out, "<p>abcdefghij...</p>");
    assert_eq!(visible_chars(&out), 10 + 3);
}

#[test]
fn summary_length_bound_under_budget() {
    let html = "<p>abc def</p>";
    let out = extract_html_summary(html, 100);
    assert_eq!(visible_chars(&out), 6);
    assert!(!out.contains("..."));
}

#[test]
fn summary_budget_zero() {
    assert_eq!(extract_html_summary("<p>abc</p>", 0), "<p>...</p>");
}

#[test]
fn summary_copies_self_closing_tags() {
    let out = extract_html_summary("<p>ab<br/>cdef</p>", 3);
    assert_eq!(out, "<p>ab<br/>c...</p>");
}

#[test]
fn remove_tag_removes_region_and_keeps_rest() {
    let out = remove_html_tag("<h1>Title</h1>\n<p>body</p>", &vec!["h1".to_string()]);
    assert_eq!(out, "\n<p>body</p>");
}

#[test]
fn remove_tag_case_insensitive() {
    let out = remove_html_tag("<H1 class=\"x\">T</H1><p>ok</p>", &vec!["h1".to_string()]);
    assert_eq!(out, "<p>ok</p>");
}

#[test]
fn remove_tag_self_closing_instances() {
    let out = remove_html_tag("a<h1/>b", &vec!["h1".to_string()]);
    assert_eq!(out, "ab");
}

#[test]
fn remove_tag_keeps_other_attributes_verbatim() {
    let html = "<img src=\"x.png\" alt=\"y\"><h2>keep</h2>";
    let out = remove_html_tag(html, &vec!["h1".to_string()]);
    assert_eq!(out, html);
}

#[test]
fn remove_tag_idempotent() {
    // idempotence of tag removal: a second pass changes nothing
    let tags = vec!["h1".to_string(), "h2".to_string()];
    let inputs = [
        "<h1>a</h1><p>b</p><h2 id=\"x\">c</h2>",
        "plain text",
        "<div><h1>nested <em>markup</em></h1>tail</div>",
        "broken </h1> input <h1>open",
    ];
    for html in inputs {
        let once = remove_html_tag(html, &tags);
        let twice = remove_html_tag(&once, &tags);
        assert_eq!(twice, once);
    }
}

#[test]
fn tag_content_first_region_trimmed() {
    assert_eq!(get_tag_content("<h1> Title </h1><h1>x</h1>", "h1"), Some("Title".to_string()));
}

#[test]
fn tag_content_none_without_close() {
    assert_eq!(get_tag_content("<h1>unclosed", "h1"), None);
    assert_eq!(get_tag_content("no heading here", "h1"), None);
}

#[test]
fn tag_content_spans_inner_markup() {
    assert_eq!(
        get_tag_content("<body>\n<p>x</p>\n</body>", "body"),
        Some("<p>x</p>".to_string())
    );
}

#[test]
fn html_h1_shortcut() {
    assert_eq!(get_html_h1("<h1>T</h1>"), Some("T".to_string()));
    assert_eq!(get_html_h1("<h2>T</h2>"), None);
}

#[test]
fn ref_paths_in_first_seen_order() {
    let html = "<img src=\"a.png\"><img src=\"b/c.jpg\">";
    assert_eq!(get_ref_paths(html), vec!["a.png".to_string(), "b/c.jpg".to_string()]);
}

#[test]
fn ref_paths_exclude_inline_data() {
    // reference extraction excludes inline data
    let html = "<img src=\"data:image/png;base64,xyz\"><img src=\"real.png\">";
    let refs = get_ref_paths(html);
    assert_eq!(refs, vec!["real.png".to_string()]);
    for r in &refs {
        assert!(!r.starts_with("data:"));
    }
}

#[test]
fn ref_paths_ignore_unclosed_and_empty_values() {
    assert_eq!(get_ref_paths("src=\"\" src=\"x\""), vec!["x".to_string()]);
    assert_eq!(get_ref_paths("src=\"never closed"), Vec::<String>::new());
}

#[test]
fn summary_tolerates_unmatched_close_tags() {
    // a stray close pops nothing; the scan simply passes it through
    let out = extract_html_summary("</div><p>abcd</p>", 2);
    assert_eq!(out, "</div><p>ab...</p>");
}

#[test]
fn summary_unclosed_tag_consumes_to_end() {
    let out = extract_html_summary("ab<em never closed", 10);
    assert_eq!(out, "ab<em never closed");
}

#[test]
fn tag_content_first_non_nested_match() {
    // the first close construct ends the region, nested markup included
    let out = get_tag_content("<div>a<div>b</div></div>", "div");
    assert_eq!(out, Some("a<div>b".to_string()));
}

#[test]
fn tag_content_case_insensitive_names() {
    assert_eq!(get_tag_content("<H1>T</h1>", "h1"), Some("T".to_string()));
}

#[test]
fn remove_tag_nested_same_name_regions() {
    let out = remove_html_tag("x<h1>a<h1>b</h1>c</h1>y", &vec!["h1".to_string()]);
    assert_eq!(out, "xy");
}
