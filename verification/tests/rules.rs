//! Tests of the smaller rules: comment-widget markup, marker injection,
//! watch decisions, build planning, slugs and timestamps.

use aoike::giscus::{Giscus, GiscusOptions, InputPosition, Mapping};
use aoike::inject::inject_str;
use aoike::watch::{debounce_batches, watch_action, WatchAction, WatchTarget};
use aoike::build_plan::{
    build_step, is_ignored_entry, is_template_file, plan_output, BuildState, OutputAction,
};
use aoike::classify::{slugify, SourceFile};
use aoike::timestamps::parse_timestamp;
use aoike::bloginfo::extract_blog_info;

#[test]
fn giscus_default_options_markup() {
    let opts = GiscusOptions::new("owner/repo".to_string(), "RID".to_string(), "CID".to_string());
    let html = Giscus(opts);
    assert_eq!(
        html,
        "<script src=\"https://giscus.app/client.js\" data-repo=\"owner/repo\" \
         data-repo-id=\"RID\" data-category-id=\"CID\" data-mapping=\"pathname\" \
         data-strict=\"0\" data-reactions-enabled=\"0\" data-emit-metadata=\"0\" \
         data-input-position=\"bottom\" data-theme=\"preferred_color_scheme\" \
         data-lang=\"zh-CN\" crossorigin=\"anonymous\" async></script>"
    );
}

#[test]
fn giscus_builders_and_term() {
    let opts = GiscusOptions::new("o/r".to_string(), "R".to_string(), "C".to_string())
        .with_category("General".to_string())
        .with_strict(true)
        .with_reactions_enabled(true)
        .with_emit_metadata(true)
        .with_lazy(true)
        .with_input_position(InputPosition::Top);
    let html = Giscus(opts);
    assert!(html.contains(" data-category=\"General\""));
    assert!(html.contains(" data-strict=\"1\""));
    assert!(html.contains(" data-reactions-enabled=\"1\""));
    assert!(html.contains(" data-emit-metadata=\"1\""));
    assert!(html.contains(" data-loading=\"lazy\""));
    assert!(html.contains(" data-input-position=\"top\""));
}

#[test]
fn giscus_numeric_mapping() {
    let mut opts = GiscusOptions::new("o/r".to_string(), "R".to_string(), "C".to_string());
    opts.mapping = Mapping::Number(1024);
    let html = Giscus(opts);
    assert!(html.contains(" data-mapping=\"number\""));
    assert!(html.contains(" data-term=\"1024\""));
}

#[test]
fn input_position_values() {
    assert_eq!(InputPosition::Bottom.into_value(), "bottom");
    assert_eq!(InputPosition::Top.into_value(), "top");
}

#[test]
fn inject_replaces_existing_block() {
    let source = "head\n<!-- X_START -->\nold\n<!-- X_END -->\ntail";
    let (out, old) = inject_str(source, "new", "x", None);
    assert_eq!(out, "head\n<!-- X_START -->\nnew\n<!-- X_END -->\ntail");
    assert_eq!(old, Some("\nold\n".to_string()));
}

#[test]
fn inject_inserts_at_anchor() {
    let source = "<head></head>";
    let (out, old) = inject_str(source, "link", "css", Some("</head>"));
    assert_eq!(out, "<head><!-- CSS_START -->\nlink\n<!-- CSS_END --></head>");
    assert_eq!(old, None);
}

#[test]
fn inject_appends_without_anchor() {
    let (out, old) = inject_str("abc", "block", "t", Some("missing"));
    assert_eq!(out, "abc<!-- T_START -->\nblock\n<!-- T_END -->");
    assert_eq!(old, None);
}

#[test]
fn watch_actions_and_windows() {
    assert!(matches!(watch_action(&WatchTarget::SourceTree), WatchAction::Rebuild));
    assert!(matches!(watch_action(&WatchTarget::OutputTree), WatchAction::Reload));
    assert_eq!(aoike::watch::debounce_window_ms(&WatchTarget::SourceTree), 2000);
    assert_eq!(aoike::watch::debounce_window_ms(&WatchTarget::OutputTree), 2500);
}

#[test]
fn debounce_coalesces_bursts() {
    // three bursts: one build per burst, not one per event
    let times = vec![0, 100, 500, 3000, 3100, 9000];
    let starts = debounce_batches(&times, 2000);
    assert_eq!(starts, vec![0, 3, 5]);
}

#[test]
fn debounce_single_burst() {
    let times = vec![10, 11, 12];
    assert_eq!(debounce_batches(&times, 2000), vec![0]);
    assert_eq!(debounce_batches(&Vec::new(), 2000), Vec::<usize>::new());
}

#[test]
fn build_states_run_in_order_and_abort() {
    let mut s = BuildState::Idle;
    for expected in [
        BuildState::Cleaning,
        BuildState::CopyingAssets,
        BuildState::RenderingPosts,
        BuildState::WritingIndex,
        BuildState::Done,
    ] {
        s = build_step(&s, true);
        assert!(s == expected);
    }
    // a failure in any phase aborts the whole build
    let failed = build_step(&BuildState::CopyingAssets, false);
    assert!(failed == BuildState::Failed);
    assert!(build_step(&failed, true) == BuildState::Failed);
}

#[test]
fn walk_skip_rules() {
    assert!(is_ignored_entry("_drafts"));
    assert!(is_ignored_entry("node_modules"));
    assert!(!is_ignored_entry("posts"));
    assert!(!is_ignored_entry("node_modules_backup"));
    assert!(is_template_file("post.html"));
    assert!(!is_template_file("style.css"));
}

#[test]
fn output_paths_mirror_sources() {
    // a non-Markdown, non-alternate-format file keeps its bytes and path
    match plan_output(&SourceFile::from("img/logo.png".to_string())) {
        OutputAction::CopyVerbatim(p) => assert_eq!(p, "img/logo.png"),
        _ => panic!("expected a verbatim copy"),
    }
    match plan_output(&SourceFile::from("posts/a.md".to_string())) {
        OutputAction::RenderHtml(p) => assert_eq!(p, "posts/a.html"),
        _ => panic!("expected a rendered document"),
    }
    match plan_output(&SourceFile::from("posts/b.typ".to_string())) {
        OutputAction::RenderHtml(p) => assert_eq!(p, "posts/b.html"),
        _ => panic!("expected a rendered document"),
    }
}

#[test]
fn slugs_are_url_safe() {
    assert_eq!(slugify("test copy"), "test-copy");
    assert_eq!(slugify("Hello, World"), "hello-world");
    assert_eq!(slugify("  spaced  "), "spaced");
    assert_eq!(slugify("2024 notes"), "2024-notes");
}

#[test]
fn timestamps_parse_and_degrade() {
    assert_eq!(parse_timestamp(true, "1759656018\n"), 1759656018);
    assert_eq!(parse_timestamp(true, "-42"), -42);
    assert_eq!(parse_timestamp(true, "+7"), 7);
    // a failed query or unreadable output degrades to the epoch
    assert_eq!(parse_timestamp(false, "1759656018"), 0);
    assert_eq!(parse_timestamp(true, "not a number"), 0);
    assert_eq!(parse_timestamp(true, ""), 0);
    assert_eq!(parse_timestamp(true, "99999999999999999999999"), 0);
    assert_eq!(parse_timestamp(true, "9223372036854775807"), i64::MAX);
    assert_eq!(parse_timestamp(true, "-9223372036854775808"), i64::MIN);
    assert_eq!(parse_timestamp(true, "9223372036854775808"), 0);
}

#[test]
fn blog_info_title_and_summary() {
    let (title, doc) = extract_blog_info("# My Post\n\nFirst line.\nSecond line.\n");
    assert_eq!(title, "My Post");
    assert_eq!(doc, "First line. Second line.");
}

#[test]
fn blog_info_untitled_and_long_text() {
    let mut text = String::from("no heading here. ");
    for _ in 0..20 {
        text.push_str("more words follow here ");
    }
    let (title, doc) = extract_blog_info(&text);
    assert_eq!(title, "Untitled");
    assert!(doc.ends_with("..."));
    assert_eq!(doc.chars().count(), 203);
}

#[test]
fn blog_info_skips_heading_lines_in_summary() {
    let (_, doc) = extract_blog_info("# H\n\n## Sub\n\nbody text");
    assert_eq!(doc, "body text");
}

#[test]
fn blog_info_ellipsis_counts_bytes() {
    // 100 two-byte characters: under the 200-character cut, but the kept
    // text's encoding runs past 197 bytes, so the marker is appended
    let long = "\u{e9}".repeat(100);
    let (_, doc) = extract_blog_info(&long);
    assert!(doc.ends_with("..."));
    assert_eq!(doc.chars().count(), 103);
    let short = "\u{e9}".repeat(90);
    let (_, doc2) = extract_blog_info(&short);
    assert_eq!(doc2, short);
}
